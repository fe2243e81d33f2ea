//! Exclusive ownership of one value in a pool node.

use crate::node::{Handle, Pool};
use core::marker::PhantomData;
use vstd::prelude::*;

verus! {

/// Owns one node of a `Pool<T>` and the single value in it.
///
/// The box is the only holder of its handle. Dropping it destroys the value
/// and then gives the node back; leaking it gives up both duties and hands
/// out the bare address of the value instead.
pub struct HeapBox<T> {
    ptr: Handle,
    pd: PhantomData<T>,
}

impl<T> HeapBox<T> {
    /// The handle this box owns.
    pub closed spec fn spec_handle(&self) -> Handle {
        self.ptr
    }

    /// The handle this box owns.
    #[verifier::when_used_as_spec(spec_handle)]
    pub fn handle(&self) -> (r: Handle)
        ensures
            r == self.handle(),
    {
        self.ptr
    }

    /// The box names an active node of `pool` whose run is one initialised
    /// cell.
    pub open spec fn wf(self, pool: &Pool<T>) -> bool {
        &&& pool.wf()
        &&& pool@.active(self.handle()@)
        &&& pool@.cells(self.handle()@).len() == 1
        &&& pool@.cells(self.handle()@)[0] is Some
    }

    /// Address of the owned value.
    pub open spec fn addr(self, pool: &Pool<T>) -> int {
        pool@.addr(self.handle()@)
    }

    /// The owned value.
    pub open spec fn value(self, pool: &Pool<T>) -> T {
        pool@.cells(self.handle()@)[0].unwrap()
    }

    /// `ptr` is the address of a value that a box may own: the single,
    /// initialised cell of an active node.
    pub open spec fn adoptable(pool: &Pool<T>, ptr: int) -> bool {
        &&& pool@.holds(ptr, 0)
        &&& pool@.cells(pool@.index_of(ptr)).len() == 1
    }

    /// Whether the box is well formed in `pool`.
    pub fn is_valid(&self, pool: &Pool<T>) -> (r: bool)
        requires
            pool.wf(),
        ensures
            r == self.wf(pool),
    {
        if !pool.is_active(self.ptr) {
            return false;
        }
        let (nn, count) = pool.resolve(self.ptr);
        count == 1 && pool.is_init(nn, 0)
    }

    /// Whether `ptr` is an address that `from_leaked` accepts.
    pub fn is_adoptable(pool: &Pool<T>, ptr: usize) -> (r: bool)
        requires
            pool.wf(),
        ensures
            r == Self::adoptable(pool, ptr as int),
    {
        match pool.lookup(ptr) {
            Some(h) => {
                let (_nn, count) = pool.resolve(h);
                count == 1 && pool.is_init(ptr, 0)
            },
            None => false,
        }
    }

    /// Moves `value` into the first vacant node of `pool` and wraps the
    /// fresh handle. When the pool has no vacant node the value comes back.
    pub fn new(pool: &mut Pool<T>, value: T) -> (r: Result<Self, T>)
        requires
            old(pool).wf(),
        ensures
            final(pool).wf(),
            match r {
                Ok(b) => {
                    &&& b.wf(final(pool))
                    &&& b.value(final(pool)) == value
                    &&& 0 <= b.handle()@ < old(pool)@.nodes.len()
                    &&& !old(pool)@.active(b.handle()@)
                    &&& forall|k: int| 0 <= k < b.handle()@ ==> old(pool)@.active(k)
                    &&& final(pool)@ == old(pool)@.set_node(b.handle()@, Some(seq![Some(value)]))
                },
                Err(v) => {
                    &&& v == value
                    &&& final(pool)@ == old(pool)@
                    &&& forall|k: int| 0 <= k < old(pool)@.nodes.len() ==> old(pool)@.active(k)
                },
            },
    {
        match pool.activate(value) {
            Ok(ptr) => Ok(HeapBox { ptr, pd: PhantomData }),
            Err(value) => Err(value),
        }
    }

    /// Takes ownership back of a value that was leaked at `ptr`.
    pub fn from_leaked(pool: &Pool<T>, ptr: usize) -> (r: Self)
        requires
            pool.wf(),
            Self::adoptable(pool, ptr as int),
        ensures
            r.wf(pool),
            r.handle()@ == pool@.index_of(ptr as int),
            r.addr(pool) == ptr,
    {
        HeapBox { ptr: pool.from_leaked_ptr(ptr), pd: PhantomData }
    }

    /// Gives up ownership without destroying anything and returns the
    /// address of the value. The pool is left as it is: the node stays
    /// active and the value stays in it until somebody adopts the address.
    pub fn leak(self, pool: &Pool<T>) -> (r: usize)
        requires
            self.wf(pool),
        ensures
            r == self.addr(pool),
            Self::adoptable(pool, r as int),
            pool@.index_of(r as int) == self.handle()@,
    {
        let (nn, _count) = pool.resolve(self.ptr);
        nn
    }

    /// Shared access to the owned value.
    pub fn deref<'a>(&self, pool: &'a Pool<T>) -> (r: &'a T)
        requires
            self.wf(pool),
        ensures
            *r == self.value(pool),
    {
        let (nn, _count) = pool.resolve(self.ptr);
        pool.read(nn, 0)
    }

    /// Exclusive access to the owned value. What the borrower leaves behind
    /// is the box's value from then on; nothing else in the pool changes.
    pub fn deref_mut<'a>(&mut self, pool: &'a mut Pool<T>) -> (r: &'a mut T)
        requires
            old(self).wf(old(pool)),
        ensures
            *final(self) == *old(self),
            *r == old(self).value(old(pool)),
            final(pool)@ == old(pool)@.set_cell(old(self).handle()@, 0, Some(*final(r))),
            old(self).wf(final(pool)),
    {
        let (nn, _count) = pool.resolve(self.ptr);
        pool.load_mut(nn, 0)
    }

    /// Destroys the owned value, then deactivates the node, in that order.
    pub fn drop(self, pool: &mut Pool<T>)
        requires
            self.wf(old(pool)),
        ensures
            final(pool).wf(),
            final(pool)@ == old(pool)@.set_node(self.handle()@, None).record_drop(
                self.value(old(pool)),
            ),
    {
        let (item_ptr, _count) = pool.resolve(self.ptr);
        pool.drop_in_place(item_ptr, 0);
        pool.deactivate(self.ptr);
    }

    /// Leaking and adopting undo each other: the address that `leak` returns
    /// is one that `from_leaked` accepts, it leads back to the very handle
    /// that was leaked, and the value found there is the value that was
    /// owned.
    pub proof fn lemma_leak_then_adopt(self, pool: &Pool<T>)
        requires
            self.wf(pool),
        ensures
            0 <= self.addr(pool) <= usize::MAX,
            Self::adoptable(pool, self.addr(pool)),
            pool@.index_of(self.addr(pool)) == self.handle()@,
            forall|other: Self|
                other.handle()@ == pool@.index_of(self.addr(pool)) ==> {
                    &&& other.handle() == self.handle()
                    &&& other.value(pool) == self.value(pool)
                },
    {
        pool@.lemma_addr_index(self.handle()@);
        assert forall|other: Self|
            other.handle()@ == pool@.index_of(self.addr(pool)) implies other.handle()
            == self.handle() by {
            Handle::lemma_view_injective(other.handle(), self.handle());
        }
    }
}

} // verus!
