//! Which variables of a graph a set of results depends on.
use vstd::prelude::*;

use crate::context::Context;
use crate::ops::op::Op;
use crate::ops::plan::{op_inputs, op_outputs};
use crate::var::{Var, ID};

verus! {

broadcast use vstd::seq_lib::group_seq_properties, vstd::set::group_set_axioms;

/// Some op of `ops` writes `x` and reads `y`: the gradient of `x` flows to `y`.
pub open spec fn feeds(ops: Seq<Op>, x: ID, y: ID) -> bool {
    exists|i: int| 0 <= i < ops.len() && #[trigger] op_outputs(ops[i]).contains(x) && op_inputs(ops[i]).contains(y)
}

/// `t` holds `starts` and every variable that feeds into one of its members.
pub open spec fn upstream_closed(ops: Seq<Op>, starts: Set<ID>, t: Set<ID>) -> bool {
    &&& starts.subset_of(t)
    &&& forall|x: ID, y: ID| t.contains(x) && #[trigger] feeds(ops, x, y) ==> t.contains(y)
}

/// The ids of a list of variables, as a set.
pub open spec fn var_ids(vs: Seq<Var>) -> Set<ID> {
    Set::new(|x: ID| exists|k: int| 0 <= k < vs.len() && vs[k].0 == x)
}

/// Every input of every op, in order.
pub open spec fn all_inputs(ops: Seq<Op>) -> Seq<ID>
    decreases ops.len(),
{
    if ops.len() == 0 {
        Seq::empty()
    } else {
        all_inputs(ops.drop_last()) + op_inputs(ops.last())
    }
}

proof fn lemma_all_inputs(ops: Seq<Op>, i: int, y: ID)
    requires
        0 <= i < ops.len(),
        op_inputs(ops[i]).contains(y),
    ensures
        all_inputs(ops).contains(y),
    decreases ops.len(),
{
    if i < ops.len() - 1 {
        lemma_all_inputs(ops.drop_last(), i, y);
        assert(ops.drop_last()[i] == ops[i]);
        let a = all_inputs(ops.drop_last());
        let k = choose|k: int| 0 <= k < a.len() && a[k] == y;
        assert((a + op_inputs(ops.last()))[k] == y);
    } else {
        let a = all_inputs(ops.drop_last());
        let b = op_inputs(ops.last());
        let k = choose|k: int| 0 <= k < b.len() && b[k] == y;
        assert((a + b)[a.len() + k] == y);
    }
}

fn contains_id(v: &Vec<ID>, x: ID) -> (r: bool)
    ensures
        r == v@.contains(x),
{
    let mut i: usize = 0;
    while i < v.len()
        invariant
            i <= v.len(),
            forall|k: int| 0 <= k < i ==> v@[k] != x,
        decreases v.len() - i,
    {
        if v[i] == x {
            return true;
        }
        i = i + 1;
    }
    false
}

impl Context {
    /// The variables that `starts` depend on through the recorded
    /// operations (an output depends on the inputs of every op that writes
    /// it) and that have training buffers, listed once each in depth-first
    /// order; none when no training buffers exist (`trainable` is `None`).
    #[verifier::loop_isolation(false)]
    pub fn collect_persistent(&self, starts: &[Var], trainable: Option<&[ID]>) -> (r: Vec<Var>)
        ensures
            ({
                let ops = self.op_seq();
                let s = var_ids(starts@);
                match trainable {
                    None => r@.len() == 0,
                    Some(tr) => {
                        &&& var_ids(r@).finite()
                        &&& r@.no_duplicates()
                        &&& forall|k: int| 0 <= k < r@.len() ==> tr@.contains(#[trigger] r@[k].0)
                        &&& forall|k: int, t: Set<ID>|
                            0 <= k < r@.len() && upstream_closed(ops, s, t) ==> #[trigger] t.contains(r@[k].0)
                        &&& exists|t: Set<ID>|
                            upstream_closed(ops, s, t) && forall|x: ID|
                                tr@.contains(x) && #[trigger] t.contains(x) ==> var_ids(r@).contains(x)
                    },
                }
            }),
    {
        let tr = match trainable {
            Some(t) => t,
            None => return Vec::new(),
        };
        let ops = self.operations();
        let ghost opsv = ops@;
        let ghost s = var_ids(starts@);
        let mut queue: Vec<ID> = Vec::new();
        let mut k: usize = 0;
        while k < starts.len()
            invariant
                k <= starts@.len(),
                queue@.len() == k,
                forall|j: int| 0 <= j < k ==> queue@[j] == starts@[j].0,
            decreases starts.len() - k,
        {
            queue.push(starts[k].0);
            k = k + 1;
        }
        let ghost start_ids = queue@;
        let ghost univ = (start_ids + all_inputs(opsv)).to_set();
        proof {
            vstd::seq_lib::seq_to_set_is_finite(start_ids + all_inputs(opsv));
            assert forall|x: ID| s.contains(x) implies start_ids.contains(x) by {
                let j = choose|j: int| 0 <= j < starts@.len() && starts@[j].0 == x;
                assert(start_ids[j] == x);
            }
            assert forall|j: int| 0 <= j < start_ids.len() implies s.contains(#[trigger] start_ids[j]) by {
                assert(starts@[j].0 == start_ids[j]);
            }
            assert forall|j: int| 0 <= j < start_ids.len() implies univ.contains(#[trigger] start_ids[j]) by {
                assert((start_ids + all_inputs(opsv))[j] == start_ids[j]);
            }
        }
        let mut visited: Vec<ID> = Vec::new();
        while queue.len() > 0
            invariant
                opsv == self.op_seq(),
                univ.finite(),
                visited@.no_duplicates(),
                forall|j: int| 0 <= j < visited@.len() ==> univ.contains(#[trigger] visited@[j]),
                forall|j: int| 0 <= j < queue@.len() ==> univ.contains(#[trigger] queue@[j]),
                // everything seen lies upstream of the starts
                forall|t: Set<ID>, j: int|
                    upstream_closed(opsv, s, t) && 0 <= j < visited@.len() ==> #[trigger] t.contains(visited@[j]),
                forall|t: Set<ID>, j: int|
                    upstream_closed(opsv, s, t) && 0 <= j < queue@.len() ==> #[trigger] t.contains(queue@[j]),
                // the starts are seen or pending
                forall|x: ID| s.contains(x) ==> visited@.contains(x) || queue@.contains(x),
                // what feeds a visited variable is seen or pending
                forall|x: ID, y: ID|
                    visited@.contains(x) && #[trigger] feeds(opsv, x, y) ==> visited@.contains(y)
                        || queue@.contains(y),
            decreases univ.len() - visited@.to_set().len(), queue@.len(),
        {
            let ghost qold = queue@;
            let id = match queue.pop() {
                Some(x) => x,
                None => {
                    assert(false);
                    break;
                },
            };
            let ghost q0 = queue@;
            assert(q0 =~= qold.drop_last());
            assert(id == qold.last());
            if contains_id(&visited, id) {
                proof {
                    assert forall|x: ID, y: ID|
                        visited@.contains(x) && #[trigger] feeds(opsv, x, y) implies visited@.contains(y)
                            || queue@.contains(y) by {
                        if !visited@.contains(y) {
                            let w2 = choose|w2: int| 0 <= w2 < qold.len() && qold[w2] == y;
                            if w2 < q0.len() {
                                assert(queue@[w2] == y);
                            }
                        }
                    }
                    assert forall|x: ID| s.contains(x) implies visited@.contains(x) || queue@.contains(x) by {
                        if !visited@.contains(x) {
                            let w2 = choose|w2: int| 0 <= w2 < qold.len() && qold[w2] == x;
                            if w2 < q0.len() {
                                assert(queue@[w2] == x);
                            }
                        }
                    }
                }
                continue;
            }
            let ghost v0 = visited@;
            visited.push(id);
            proof {
                assert(visited@.to_set() =~= v0.to_set().insert(id));
                assert(!v0.to_set().contains(id));
                assert(visited@.to_set().subset_of(univ));
                vstd::set_lib::lemma_len_subset(visited@.to_set(), univ);
                vstd::seq_lib::seq_to_set_is_finite(v0);
            }
            let mut i: usize = 0;
            while i < ops.len()
                invariant
                    i <= ops@.len(),
                    ops@ == opsv,
                    visited@ == v0.push(id),
                    q0.len() <= queue@.len(),
                    queue@.subrange(0, q0.len() as int) == q0,
                    forall|j: int| 0 <= j < queue@.len() ==> univ.contains(#[trigger] queue@[j]),
                    forall|t: Set<ID>, j: int|
                        upstream_closed(opsv, s, t) && 0 <= j < queue@.len() ==> #[trigger] t.contains(queue@[j]),
                    forall|o: int, y: ID|
                        0 <= o < i && op_outputs(opsv[o]).contains(id) && #[trigger] op_inputs(opsv[o]).contains(y)
                            ==> queue@.contains(y),
                decreases ops@.len() - i,
            {
                let outs = ops[i].outputs();
                if contains_id(&outs, id) {
                    let ins = ops[i].inputs();
                    let ghost qa = queue@;
                    let mut j: usize = 0;
                    while j < ins.len()
                        invariant
                            j <= ins@.len(),
                            ins@ == op_inputs(opsv[i as int]),
                            op_outputs(opsv[i as int]).contains(id),
                            qa.len() <= queue@.len(),
                            queue@.subrange(0, qa.len() as int) == qa,
                            forall|jj: int| 0 <= jj < j ==> queue@.contains(#[trigger] ins@[jj]),
                            forall|jj: int| 0 <= jj < queue@.len() ==> univ.contains(#[trigger] queue@[jj]),
                            forall|t: Set<ID>, jj: int|
                                upstream_closed(opsv, s, t) && 0 <= jj < queue@.len() ==> #[trigger] t.contains(queue@[jj]),
                        decreases ins@.len() - j,
                    {
                        let ghost qb = queue@;
                        let y = ins[j];
                        proof {
                            assert(op_inputs(opsv[i as int]).contains(y));
                            lemma_all_inputs(opsv, i as int, y);
                            let a = all_inputs(opsv);
                            let kk = choose|kk: int| 0 <= kk < a.len() && a[kk] == y;
                            assert((start_ids + a)[start_ids.len() + kk] == y);
                            assert forall|t: Set<ID>| upstream_closed(opsv, s, t) implies t.contains(y) by {
                                assert(feeds(opsv, id, y));
                                assert(t.contains(visited@[v0.len() as int]));
                            }
                        }
                        queue.push(y);
                        proof {
                            assert forall|jj: int| 0 <= jj < j + 1 implies queue@.contains(#[trigger] ins@[jj]) by {
                                if jj < j {
                                    let w = choose|w: int| 0 <= w < qb.len() && qb[w] == ins@[jj];
                                    assert(queue@[w] == ins@[jj]);
                                } else {
                                    assert(queue@[qb.len() as int] == y);
                                }
                            }
                            assert(queue@.subrange(0, qa.len() as int) =~= qa);
                        }
                        j = j + 1;
                    }
                    proof {
                        assert forall|o: int, y: ID|
                            0 <= o < i + 1 && op_outputs(opsv[o]).contains(id) && #[trigger] op_inputs(
                                opsv[o],
                            ).contains(y) implies queue@.contains(y) by {
                            if o < i {
                                let w = choose|w: int| 0 <= w < qa.len() && qa[w] == y;
                                assert(queue@[w] == y);
                            } else {
                                let w = choose|w: int| 0 <= w < ins@.len() && ins@[w] == y;
                                assert(queue@.contains(ins@[w]));
                            }
                        }
                        assert(queue@.subrange(0, q0.len() as int) =~= q0);
                    }
                }
                i = i + 1;
            }
            proof {
                assert forall|x: ID, y: ID|
                    visited@.contains(x) && #[trigger] feeds(opsv, x, y) implies visited@.contains(y)
                        || queue@.contains(y) by {
                    if x == id {
                        let o = choose|o: int|
                            0 <= o < opsv.len() && #[trigger] op_outputs(opsv[o]).contains(x) && op_inputs(
                                opsv[o],
                            ).contains(y);
                        assert(op_inputs(opsv[o]).contains(y));
                    } else {
                        let w = choose|w: int| 0 <= w < visited@.len() && visited@[w] == x;
                        assert(v0[w] == x);
                        assert(v0.contains(x));
                        if !v0.contains(y) {
                            let w2 = choose|w2: int| 0 <= w2 < qold.len() && qold[w2] == y;
                            if w2 < q0.len() {
                                assert(queue@.subrange(0, q0.len() as int)[w2] == queue@[w2]);
                                assert(queue@[w2] == y);
                            } else {
                                assert(visited@[v0.len() as int] == y);
                            }
                        } else {
                            let w3 = choose|w3: int| 0 <= w3 < v0.len() && v0[w3] == y;
                            assert(visited@[w3] == y);
                        }
                    }
                }
                assert forall|x: ID| s.contains(x) implies visited@.contains(x) || queue@.contains(x) by {
                    if !v0.contains(x) {
                        let w2 = choose|w2: int| 0 <= w2 < qold.len() && qold[w2] == x;
                        if w2 < q0.len() {
                            assert(queue@.subrange(0, q0.len() as int)[w2] == queue@[w2]);
                            assert(queue@[w2] == x);
                        } else {
                            assert(visited@[v0.len() as int] == x);
                        }
                    } else {
                        let w3 = choose|w3: int| 0 <= w3 < v0.len() && v0[w3] == x;
                        assert(visited@[w3] == x);
                    }
                }
            }
        }
        // keep the visited variables that have training buffers
        let mut result: Vec<Var> = Vec::new();
        let mut m: usize = 0;
        while m < visited.len()
            invariant
                m <= visited@.len(),
                result@.no_duplicates(),
                forall|k: int| 0 <= k < result@.len() ==> tr@.contains(#[trigger] result@[k].0),
                forall|k: int| 0 <= k < result@.len() ==> exists|j: int| 0 <= j < m && visited@[j] == (
                #[trigger] result@[k]).0,
                forall|j: int| 0 <= j < m && tr@.contains(#[trigger] visited@[j]) ==> var_ids(result@).contains(
                    visited@[j],
                ),
            decreases visited@.len() - m,
        {
            let x = visited[m];
            if contains_id_slice(tr, x) {
                let ghost r0 = result@;
                result.push(Var(x));
                proof {
                    assert(result@[r0.len() as int].0 == x);
                    assert forall|a: int, b: int| 0 <= a < b < result@.len() implies result@[a] != result@[b] by {
                        if b == r0.len() {
                            let j = choose|j: int| 0 <= j < m && visited@[j] == r0[a].0;
                            assert(visited@[j] != visited@[m as int]);
                        }
                    }
                    assert forall|j: int| 0 <= j < m + 1 && tr@.contains(#[trigger] visited@[j]) implies var_ids(
                        result@,
                    ).contains(visited@[j]) by {
                        if j < m {
                            let k = choose|k: int| 0 <= k < r0.len() && r0[k].0 == visited@[j];
                            assert(result@[k].0 == visited@[j]);
                        } else {
                            assert(result@[r0.len() as int].0 == visited@[j]);
                        }
                    }
                    assert forall|k: int| 0 <= k < result@.len() implies exists|j: int|
                        0 <= j < m + 1 && visited@[j] == (#[trigger] result@[k]).0 by {
                        if k < r0.len() {
                            assert(result@[k] == r0[k]);
                        } else {
                            assert(visited@[m as int] == result@[k].0);
                        }
                    }
                }
            }
            m = m + 1;
        }
        proof {
            let t = visited@.to_set();
            assert(upstream_closed(opsv, s, t));
            assert forall|k: int| 0 <= k < result@.len() implies var_ids(result@).contains(#[trigger] result@[k].0) by {}
            assert forall|x: ID| tr@.contains(x) && #[trigger] t.contains(x) implies var_ids(result@).contains(x) by {
                let j = choose|j: int| 0 <= j < visited@.len() && visited@[j] == x;
            }
            assert forall|k: int, tt: Set<ID>|
                0 <= k < result@.len() && upstream_closed(opsv, s, tt) implies #[trigger] tt.contains(result@[k].0) by {
                let j = choose|j: int| 0 <= j < visited@.len() && visited@[j] == result@[k].0;
            }
            assert(var_ids(result@).subset_of(t));
            vstd::seq_lib::seq_to_set_is_finite(visited@);
            vstd::set_lib::lemma_set_subset_finite(t, var_ids(result@));
        }
        result
    }
}

fn contains_id_slice(v: &[ID], x: ID) -> (r: bool)
    ensures
        r == v@.contains(x),
{
    let mut i: usize = 0;
    while i < v.len()
        invariant
            i <= v.len(),
            forall|k: int| 0 <= k < i ==> v@[k] != x,
        decreases v.len() - i,
    {
        if v[i] == x {
            return true;
        }
        i = i + 1;
    }
    false
}

/// The element count of `id` in `c`, or 0 when it has no shape.
pub open spec fn count_or_zero(c: Context, id: ID) -> u32 {
    if c.has_shape(id) {
        crate::dims::prod(c.shape_of(id)) as u32
    } else {
        0
    }
}

/// The first occurrence of each id of `ids` that is in `trainable`, in
/// order, with its element count in `c`.
pub open spec fn targets(ids: Seq<ID>, trainable: Seq<ID>, c: Context) -> Seq<(ID, u32)>
    decreases ids.len(),
{
    if ids.len() == 0 {
        Seq::empty()
    } else {
        let prev = targets(ids.drop_last(), trainable, c);
        let x = ids.last();
        if trainable.contains(x) && !ids.drop_last().contains(x) {
            prev.push((x, count_or_zero(c, x)))
        } else {
            prev
        }
    }
}

/// The element counts of the trainable variables that have a shape fit in
/// `u32`.
pub open spec fn trainable_counts_fit(c: Context, trainable: Seq<ID>) -> bool {
    forall|k: int|
        0 <= k < trainable.len() && c.has_shape(#[trigger] trainable[k]) ==> crate::dims::prefix_prods_fit(
            c.shape_of(trainable[k]),
        )
}

impl Context {
    /// The variables an optimizer updates: the inputs of the recorded
    /// operations that are in `trainable` (those with gradient buffers),
    /// each once, in the order the operations first read them, with their
    /// element counts (0 for one without a shape).
    pub fn optimizer_targets(&self, trainable: &[ID]) -> (r: Vec<(ID, u32)>)
        requires
            trainable_counts_fit(*self, trainable@),
        ensures
            r@ == targets(all_inputs(self.op_seq()), trainable@, *self),
    {
        let ops = self.operations();
        let ghost opsv = ops@;
        let mut seen: Vec<ID> = Vec::new();
        let mut out: Vec<(ID, u32)> = Vec::new();
        let mut i: usize = 0;
        while i < ops.len()
            invariant
                i <= opsv.len(),
                opsv == self.op_seq(),
                ops@ == opsv,
                trainable_counts_fit(*self, trainable@),
                seen@ == all_inputs(opsv.take(i as int)),
                out@ == targets(seen@, trainable@, *self),
            decreases opsv.len() - i,
        {
            let ins = ops[i].inputs();
            proof {
                assert(opsv.take(i + 1).drop_last() =~= opsv.take(i as int));
            }
            let ghost base = seen@;
            let mut j: usize = 0;
            while j < ins.len()
                invariant
                    j <= ins@.len(),
                    ins@ == op_inputs(opsv[i as int]),
                    trainable_counts_fit(*self, trainable@),
                    seen@ == base + ins@.take(j as int),
                    out@ == targets(seen@, trainable@, *self),
                decreases ins@.len() - j,
            {
                let x = ins[j];
                let ghost before = seen@;
                let fresh = !contains_id(&seen, x);
                let wanted = contains_id_slice(trainable, x);
                if fresh && wanted {
                    let n = match self.shape_total(x) {
                        Some(n) => n,
                        None => 0,
                    };
                    out.push((x, n));
                }
                seen.push(x);
                proof {
                    assert(seen@.drop_last() =~= before);
                    assert(seen@.last() == x);
                    assert(ins@.take(j + 1) =~= ins@.take(j as int).push(x));
                    assert(seen@ =~= base + ins@.take(j + 1));
                }
                j = j + 1;
            }
            proof {
                assert(ins@.take(ins@.len() as int) =~= ins@);
                assert(opsv.take(i + 1).last() == opsv[i as int]);
            }
            i = i + 1;
        }
        proof {
            assert(opsv.take(opsv.len() as int) =~= opsv);
        }
        out
    }
}

} // verus!
