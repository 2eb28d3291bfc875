//! The computation graph under construction: the shape of every variable,
//! the operations recorded so far, and the source of fresh variable ids.
use std::collections::HashMap;
use vstd::prelude::*;

use crate::dims::{prefix_prods_fit, prod, shape_product};
use crate::ops::broadcast_shape::slice_to_vec;
use crate::ops::op::Op;
use crate::var::ID;

verus! {

broadcast use vstd::std_specs::hash::group_hash_axioms;

/// The id that follows `c` (ids wrap around after `u64::MAX`).
pub open spec fn next_counter(c: u64) -> u64 {
    if c == u64::MAX {
        0
    } else {
        (c + 1) as u64
    }
}

/// Shapes, operations and id counter of one graph.
#[derive(Debug)]
pub struct Context {
    latest_shape: HashMap<u64, Vec<u32>>,
    operations: Vec<Op>,
    next_id: u64,
}

impl Context {
    /// The shape recorded for each variable id.
    pub closed spec fn shapes_view(&self) -> Map<u64, Seq<u32>> {
        self.latest_shape@.map_values(|v: Vec<u32>| v@)
    }

    /// The operations recorded so far, in order.
    pub closed spec fn op_seq(&self) -> Seq<Op> {
        self.operations@
    }

    /// The id the next fresh variable receives.
    pub closed spec fn id_counter(&self) -> u64 {
        self.next_id
    }

    pub open spec fn has_shape(&self, id: ID) -> bool {
        self.shapes_view().contains_key(id.0)
    }

    pub open spec fn shape_of(&self, id: ID) -> Seq<u32> {
        self.shapes_view()[id.0]
    }

    /// Every variable with a shape has an id below the counter, so fresh
    /// ids are new until the counter wraps around.
    pub open spec fn ids_ok(&self) -> bool {
        forall|k: u64| #[trigger] self.shapes_view().contains_key(k) ==> k < self.id_counter()
    }

    /// An empty graph whose first fresh id is 0.
    pub fn new() -> (r: Self)
        ensures
            r.shapes_view() == Map::<u64, Seq<u32>>::empty(),
            r.op_seq() == Seq::<Op>::empty(),
            r.id_counter() == 0,
            r.ids_ok(),
    {
        let r = Context { latest_shape: HashMap::new(), operations: Vec::new(), next_id: 0 };
        assert(r.shapes_view() =~= Map::<u64, Seq<u32>>::empty());
        r
    }

    /// Hands out a fresh id value.
    pub fn allocate_id(&mut self) -> (r: u64)
        ensures
            r == old(self).id_counter(),
            final(self).id_counter() == next_counter(old(self).id_counter()),
            final(self).shapes_view() == old(self).shapes_view(),
            final(self).op_seq() == old(self).op_seq(),
    {
        let r = self.next_id;
        self.next_id = self.next_id.wrapping_add(1);
        r
    }

    /// The id the next fresh variable receives (it grows with the graph).
    pub fn id_count(&self) -> (r: u64)
        ensures
            r == self.id_counter(),
    {
        self.next_id
    }

    /// A copy of the shape table.
    pub fn shapes(&self) -> (r: HashMap<u64, Vec<u32>>)
        ensures
            r@.map_values(|v: Vec<u32>| v@) == self.shapes_view(),
    {
        self.latest_shape.clone()
    }

    /// Number of variables that have a shape.
    pub fn shapes_count(&self) -> (r: usize)
        ensures
            r == self.shapes_view().len(),
    {
        proof {
            assert(self.latest_shape@.dom() =~= self.shapes_view().dom());
        }
        self.latest_shape.len()
    }

    /// The shape of `id`, if it has one.
    pub fn shape(&self, id: ID) -> (r: Option<Vec<u32>>)
        ensures
            match r {
                Some(s) => self.has_shape(id) && s@ == self.shape_of(id),
                None => !self.has_shape(id),
            },
    {
        match self.latest_shape.get(&id.0) {
            Some(s) => Some(slice_to_vec(s.as_slice())),
            None => None,
        }
    }

    /// Whether `id` has a shape whose prefix products (its element count
    /// among them) fit in `u32`.
    pub fn has_countable_shape(&self, id: ID) -> (r: bool)
        ensures
            r == (self.has_shape(id) && prefix_prods_fit(self.shape_of(id))),
    {
        match self.shape(id) {
            Some(s) => crate::dims::prods_fit(s.as_slice()),
            None => false,
        }
    }

    /// The number of elements of `id`, if it has a shape.
    pub fn shape_total_with_context(&self, id: ID) -> (r: Option<u32>)
        requires
            self.has_shape(id) ==> prefix_prods_fit(self.shape_of(id)),
        ensures
            match r {
                Some(n) => self.has_shape(id) && n == prod(self.shape_of(id)),
                None => !self.has_shape(id),
            },
    {
        match self.latest_shape.get(&id.0) {
            Some(s) => Some(shape_product(s.as_slice())),
            None => None,
        }
    }

    /// The number of elements of `id`, if it has a shape.
    pub fn shape_total(&self, id: ID) -> (r: Option<u32>)
        requires
            self.has_shape(id) ==> prefix_prods_fit(self.shape_of(id)),
        ensures
            match r {
                Some(n) => self.has_shape(id) && n == prod(self.shape_of(id)),
                None => !self.has_shape(id),
            },
    {
        self.shape_total_with_context(id)
    }

    /// Records `shape` for `id`, returning the shape it replaces.
    pub fn insert_shape(&mut self, id: ID, shape: Vec<u32>) -> (r: Option<Vec<u32>>)
        ensures
            final(self).shapes_view() == old(self).shapes_view().insert(id.0, shape@),
            final(self).op_seq() == old(self).op_seq(),
            final(self).id_counter() == old(self).id_counter(),
            match r {
                Some(s) => old(self).has_shape(id) && s@ == old(self).shape_of(id),
                None => !old(self).has_shape(id),
            },
    {
        let ghost v = shape@;
        let r = self.latest_shape.insert(id.0, shape);
        proof {
            assert(self.shapes_view() =~= old(self).shapes_view().insert(id.0, v));
        }
        r
    }

    /// Appends `op` to the graph.
    pub fn push_operation(&mut self, op: Op)
        ensures
            final(self).op_seq() == old(self).op_seq().push(op),
            final(self).shapes_view() == old(self).shapes_view(),
            final(self).id_counter() == old(self).id_counter(),
    {
        self.operations.push(op);
    }

    /// Drops the recorded operations between epochs; shapes (and with them
    /// the model's variables) are kept.
    pub fn clear(&mut self)
        ensures
            final(self).op_seq() == Seq::<Op>::empty(),
            final(self).shapes_view() == old(self).shapes_view(),
            final(self).id_counter() == old(self).id_counter(),
    {
        self.operations.clear();
    }

    /// Drops operations and shapes, for starting completely fresh.
    pub fn reset(&mut self)
        ensures
            final(self).op_seq() == Seq::<Op>::empty(),
            final(self).shapes_view() == Map::<u64, Seq<u32>>::empty(),
            final(self).id_counter() == old(self).id_counter(),
    {
        self.operations.clear();
        self.latest_shape.clear();
        proof {
            assert(self.shapes_view() =~= Map::<u64, Seq<u32>>::empty());
        }
    }

    /// The recorded operations, in order.
    pub fn operations(&self) -> (r: &Vec<Op>)
        ensures
            r@ == self.op_seq(),
    {
        &self.operations
    }
}

/// Reading a variable's shape after recording one gives back the shape
/// recorded, and leaves the other variables' shapes as they were.
pub proof fn law_shape_reads_back(c1: Context, c2: Context, id: ID, shape: Seq<u32>)
    requires
        c2.shapes_view() == c1.shapes_view().insert(id.0, shape),
    ensures
        c2.has_shape(id),
        c2.shape_of(id) == shape,
        forall|other: ID| other != id ==> (#[trigger] c2.has_shape(other) == c1.has_shape(other) && (
        c1.has_shape(other) ==> c2.shape_of(other) == c1.shape_of(other))),
{
}

/// A graph whose shaped ids are all below its counter hands out, until the
/// counter wraps around, a fresh id that no variable has, then a different
/// one.
pub proof fn law_fresh_ids(c: Context)
    requires
        c.ids_ok(),
        c.id_counter() < u64::MAX,
    ensures
        !c.has_shape(ID(c.id_counter())),
        next_counter(c.id_counter()) != c.id_counter(),
        next_counter(c.id_counter()) > c.id_counter(),
{
}

} // verus!
