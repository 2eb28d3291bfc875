//! Element counts of tensor shapes, and the overflow conditions under which
//! they are computed with `u32` arithmetic.
use vstd::prelude::*;

verus! {

/// Product of all dimensions of a shape (1 for the empty shape).
pub open spec fn prod(s: Seq<u32>) -> int
    decreases s.len(),
{
    if s.len() == 0 {
        1
    } else {
        prod(s.drop_last()) * s.last()
    }
}

/// Every running product computed left to right fits in a `u32`
/// (the condition under which `iter().product::<u32>()` does not overflow).
pub open spec fn prefix_prods_fit(s: Seq<u32>) -> bool {
    forall|j: int| 0 <= j <= s.len() ==> #[trigger] prod(s.take(j)) <= u32::MAX
}

/// Every product of a proper suffix fits in a `u32`
/// (the condition under which row-major strides do not overflow).
pub open spec fn strides_fit(s: Seq<u32>) -> bool {
    forall|k: int| 1 <= k <= s.len() ==> #[trigger] prod(s.subrange(k, s.len() as int)) <= u32::MAX
}

pub proof fn lemma_prod_nonneg(s: Seq<u32>)
    ensures
        prod(s) >= 0,
    decreases s.len(),
{
    if s.len() > 0 {
        lemma_prod_nonneg(s.drop_last());
        assert(prod(s.drop_last()) * s.last() >= 0) by (nonlinear_arith)
            requires
                prod(s.drop_last()) >= 0,
        ;
    }
}

/// The product of a concatenation is the product of the products.
pub proof fn lemma_prod_concat(a: Seq<u32>, b: Seq<u32>)
    ensures
        prod(a + b) == prod(a) * prod(b),
    decreases b.len(),
{
    if b.len() == 0 {
        assert(a + b =~= a);
    } else {
        lemma_prod_concat(a, b.drop_last());
        assert((a + b).drop_last() =~= a + b.drop_last());
        let pa = prod(a);
        let pb = prod(b.drop_last());
        let l = b.last() as int;
        assert(pa * pb * l == pa * (pb * l)) by (nonlinear_arith);
    }
}

/// Peeling the first element of a subrange off its product.
pub proof fn lemma_prod_subrange_first(s: Seq<u32>, k: int, n: int)
    requires
        0 <= k < n <= s.len(),
    ensures
        prod(s.subrange(k, n)) == s[k] * prod(s.subrange(k + 1, n)),
{
    assert(s.subrange(k, n) =~= seq![s[k]] + s.subrange(k + 1, n));
    lemma_prod_concat(seq![s[k]], s.subrange(k + 1, n));
    assert(seq![s[k]].drop_last() =~= Seq::<u32>::empty());
    assert(prod(Seq::<u32>::empty()) == 1);
    assert(prod(seq![s[k]]) == s[k]);
}

/// Every running product computed left to right fits in a `usize`.
pub open spec fn prefix_prods_fit_usize(s: Seq<u32>) -> bool {
    forall|j: int| 0 <= j <= s.len() ==> #[trigger] prod(s.take(j)) <= usize::MAX
}

/// Extending a prefix by one element multiplies its product by that element.
pub proof fn lemma_prod_take_step(s: Seq<u32>, j: int)
    requires
        0 <= j < s.len(),
    ensures
        prod(s.take(j + 1)) == prod(s.take(j)) * s[j],
{
    assert(s.take(j + 1).drop_last() =~= s.take(j));
}

/// Product of a `u32` shape, computed left to right as
/// `shape.iter().product::<u32>()` does.
pub fn shape_product(shape: &[u32]) -> (p: u32)
    requires
        prefix_prods_fit(shape@),
    ensures
        p == prod(shape@),
{
    let mut p: u32 = 1;
    let mut j: usize = 0;
    while j < shape.len()
        invariant
            j <= shape.len(),
            prefix_prods_fit(shape@),
            p == prod(shape@.take(j as int)),
        decreases shape.len() - j,
    {
        proof {
            lemma_prod_take_step(shape@, j as int);
            assert(prod(shape@.take(j + 1)) <= u32::MAX);
        }
        p = p * shape[j];
        j = j + 1;
    }
    assert(shape@.take(shape.len() as int) =~= shape@);
    p
}

/// Product of `shape[from..to]`, computed left to right.
pub fn range_product(shape: &[u32], from: usize, to: usize) -> (p: u32)
    requires
        from <= to <= shape@.len(),
        prefix_prods_fit(shape@.subrange(from as int, to as int)),
    ensures
        p == prod(shape@.subrange(from as int, to as int)),
{
    let ghost sub = shape@.subrange(from as int, to as int);
    let mut p: u32 = 1;
    let mut j: usize = from;
    while j < to
        invariant
            from <= j <= to <= shape@.len(),
            sub == shape@.subrange(from as int, to as int),
            prefix_prods_fit(sub),
            p == prod(sub.take(j - from)),
        decreases to - j,
    {
        proof {
            lemma_prod_take_step(sub, j - from);
            assert(prod(sub.take(j - from + 1)) <= u32::MAX);
        }
        p = p * shape[j];
        j = j + 1;
    }
    assert(sub.take(to - from) =~= sub);
    p
}

/// Product of `shape[from..to]` as a `usize`, computed left to right.
pub fn range_product_usize(shape: &[u32], from: usize, to: usize) -> (p: usize)
    requires
        from <= to <= shape@.len(),
        prefix_prods_fit_usize(shape@.subrange(from as int, to as int)),
    ensures
        p == prod(shape@.subrange(from as int, to as int)),
{
    let ghost sub = shape@.subrange(from as int, to as int);
    let mut p: usize = 1;
    let mut j: usize = from;
    while j < to
        invariant
            from <= j <= to <= shape@.len(),
            sub == shape@.subrange(from as int, to as int),
            prefix_prods_fit_usize(sub),
            p == prod(sub.take(j - from)),
        decreases to - j,
    {
        proof {
            lemma_prod_take_step(sub, j - from);
            assert(prod(sub.take(j - from + 1)) <= usize::MAX);
        }
        p = p * (shape[j] as usize);
        j = j + 1;
    }
    assert(sub.take(to - from) =~= sub);
    p
}

/// The leading axes of a shape whose running products fit also fit.
pub proof fn lemma_fits_prefix(s: Seq<u32>, k: int)
    requires
        prefix_prods_fit(s),
        0 <= k <= s.len(),
    ensures
        prefix_prods_fit(s.subrange(0, k)),
{
    assert forall|j: int| 0 <= j <= k implies #[trigger] prod(s.subrange(0, k).take(j)) <= u32::MAX by {
        assert(s.subrange(0, k).take(j) =~= s.take(j));
    }
}

/// Appending a dimension multiplies the product by it.
pub proof fn lemma_prod_push(s: Seq<u32>, x: u32)
    ensures
        prod(s.push(x)) == prod(s) * x,
{
    assert(s.push(x).drop_last() =~= s);
}

/// Appending a dimension keeps every running product in range when the
/// new full product is.
pub proof fn lemma_fits_push(s: Seq<u32>, x: u32)
    requires
        prefix_prods_fit(s),
        prod(s) * x <= u32::MAX,
    ensures
        prefix_prods_fit(s.push(x)),
{
    lemma_prod_push(s, x);
    assert forall|j: int| 0 <= j <= s.len() + 1 implies #[trigger] prod(s.push(x).take(j)) <= u32::MAX by {
        if j <= s.len() {
            assert(s.push(x).take(j) =~= s.take(j));
        } else {
            assert(s.push(x).take(j) =~= s.push(x));
        }
    }
}

/// Products of short literal shapes.
pub proof fn lemma_prod_small(a: u32, b: u32, c: u32, d: u32, e: u32, f: u32)
    ensures
        prod(seq![a]) == a,
        prod(seq![a, b]) == a * b,
        prod(seq![a, b, c]) == a * b * c,
        prod(seq![a, b, c, d]) == a * b * c * d,
        prod(seq![a, b, c, d, e]) == a * b * c * d * e,
        prod(seq![a, b, c, d, e, f]) == a * b * c * d * e * f,
{
    let s0 = Seq::<u32>::empty();
    assert(prod(s0) == 1);
    lemma_prod_push(s0, a);
    assert(s0.push(a) =~= seq![a]);
    assert(seq![a].push(b) =~= seq![a, b]);
    assert(seq![a, b].push(c) =~= seq![a, b, c]);
    assert(seq![a, b, c].push(d) =~= seq![a, b, c, d]);
    assert(seq![a, b, c, d].push(e) =~= seq![a, b, c, d, e]);
    assert(seq![a, b, c, d, e].push(f) =~= seq![a, b, c, d, e, f]);
    lemma_prod_push(seq![a], b);
    lemma_prod_push(seq![a, b], c);
    lemma_prod_push(seq![a, b, c], d);
    lemma_prod_push(seq![a, b, c, d], e);
    lemma_prod_push(seq![a, b, c, d, e], f);
}

/// Two-axis shapes whose product fits have all running products in range.
pub proof fn lemma_fits2(a: u32, b: u32)
    requires
        a * b <= u32::MAX,
    ensures
        prefix_prods_fit(seq![a, b]),
        prod(seq![a, b]) == a * b,
{
    let e = Seq::<u32>::empty();
    assert(prod(e) == 1);
    assert forall|j: int| 0 <= j <= 0 implies #[trigger] prod(e.take(j)) <= u32::MAX by {
        assert(e.take(j) =~= e);
    }
    lemma_fits_push(e, a);
    lemma_prod_push(e, a);
    assert(e.push(a) =~= seq![a]);
    lemma_fits_push(seq![a], b);
    lemma_prod_push(seq![a], b);
    assert(seq![a].push(b) =~= seq![a, b]);
}

/// A pair whose product fits in `u32` has all its prefix products fitting.
pub proof fn lemma_pair_fits(a: u32, b: u32)
    requires
        a * b <= u32::MAX,
    ensures
        prefix_prods_fit(seq![a, b]),
        prod(seq![a, b]) == a * b,
        strides_fit(seq![a, b]),
{
    lemma_prod_small(a, b, 0, 0, 0, 0);
    lemma_prod_small(b, 0, 0, 0, 0, 0);
    let s = seq![a, b];
    assert forall|j: int| 0 <= j <= 2 implies #[trigger] prod(s.take(j)) <= u32::MAX by {
        if j == 0 {
            assert(s.take(0) =~= Seq::<u32>::empty());
        } else if j == 1 {
            assert(s.take(1) =~= seq![a]);
        } else {
            assert(s.take(2) =~= s);
        }
    }
    assert forall|k: int| 1 <= k <= 2 implies #[trigger] prod(s.subrange(k, 2)) <= u32::MAX by {
        if k == 1 {
            assert(s.subrange(1, 2) =~= seq![b]);
        } else {
            assert(s.subrange(2, 2) =~= Seq::<u32>::empty());
        }
    }
}



/// Whether every prefix product of `shape[from..to]` fits in `u32`.
pub fn range_prods_fit(shape: &[u32], from: usize, to: usize) -> (r: bool)
    requires
        from <= to <= shape@.len(),
    ensures
        r == prefix_prods_fit(shape@.subrange(from as int, to as int)),
{
    let ghost t = shape@.subrange(from as int, to as int);
    let mut p: u64 = 1;
    let mut j: usize = from;
    assert(t.take(0) =~= Seq::<u32>::empty());
    while j < to
        invariant
            from <= j <= to <= shape@.len(),
            t == shape@.subrange(from as int, to as int),
            p == prod(t.take(j - from)),
            p <= u32::MAX,
            forall|q: int| 0 <= q <= j - from ==> #[trigger] prod(t.take(q)) <= u32::MAX,
        decreases to - j,
    {
        proof {
            lemma_prod_take_step(t, (j - from) as int);
            assert(t[(j - from) as int] == shape@[j as int]);
        }
        let x = shape[j] as u64;
        assert(p * x <= u32::MAX * u32::MAX) by (nonlinear_arith)
            requires
                p <= u32::MAX,
                x <= u32::MAX,
        ;
        let next = p * x;
        if next > 0xffff_ffffu64 {
            assert(!prefix_prods_fit(t)) by {
                assert(prod(t.take(j - from + 1)) > u32::MAX);
            }
            return false;
        }
        p = next;
        j = j + 1;
    }
    assert(t.take(to - from) =~= t);
    true
}

/// Whether every prefix product of `shape[from..to]` fits in `usize`.
pub fn range_prods_fit_usize(shape: &[u32], from: usize, to: usize) -> (r: bool)
    requires
        from <= to <= shape@.len(),
    ensures
        r == prefix_prods_fit_usize(shape@.subrange(from as int, to as int)),
{
    let ghost t = shape@.subrange(from as int, to as int);
    let mut p: u128 = 1;
    let mut j: usize = from;
    assert(t.take(0) =~= Seq::<u32>::empty());
    while j < to
        invariant
            from <= j <= to <= shape@.len(),
            t == shape@.subrange(from as int, to as int),
            p == prod(t.take(j - from)),
            p <= usize::MAX,
            forall|q: int| 0 <= q <= j - from ==> #[trigger] prod(t.take(q)) <= usize::MAX,
        decreases to - j,
    {
        proof {
            lemma_prod_take_step(t, (j - from) as int);
            assert(t[(j - from) as int] == shape@[j as int]);
        }
        let x = shape[j] as u128;
        assert(p * x <= 0xffff_ffff_ffff_ffffu128 * 0xffff_ffffu128) by (nonlinear_arith)
            requires
                p <= 0xffff_ffff_ffff_ffffu128,
                x <= 0xffff_ffffu128,
        ;
        let next = p * x;
        if next > usize::MAX as u128 {
            assert(!prefix_prods_fit_usize(t)) by {
                assert(prod(t.take(j - from + 1)) > usize::MAX);
            }
            return false;
        }
        p = next;
        j = j + 1;
    }
    assert(t.take(to - from) =~= t);
    true
}

/// Whether every prefix product of `shape` fits in `u32`.
pub fn prods_fit(shape: &[u32]) -> (r: bool)
    ensures
        r == prefix_prods_fit(shape@),
{
    assert(shape@.subrange(0, shape@.len() as int) =~= shape@);
    range_prods_fit(shape, 0, shape.len())
}

} // verus!
