//! Exclusive ownership of a fixed-length run of values in a pool node.

use crate::node::{Handle, Pool, PoolModel};
use core::marker::PhantomData;
use vstd::prelude::*;

verus! {

/// Owns one node of a `Pool<T>` and the run of values in it. The length of
/// the run is fixed when the node is activated and is kept by the pool.
pub struct HeapArray<T> {
    ptr: Handle,
    pd: PhantomData<T>,
}

impl<T> HeapArray<T> {
    /// The handle this array owns.
    pub closed spec fn spec_handle(&self) -> Handle {
        self.ptr
    }

    /// The handle this array owns.
    #[verifier::when_used_as_spec(spec_handle)]
    pub fn handle(&self) -> (r: Handle)
        ensures
            r == self.handle(),
    {
        self.ptr
    }

    /// The array names an active node of `pool`, and every cell of its run
    /// is initialised.
    pub open spec fn wf(self, pool: &Pool<T>) -> bool {
        &&& pool.wf()
        &&& pool@.active(self.handle()@)
        &&& pool@.filled_to(self.handle()@, pool@.cells(self.handle()@).len() as int)
    }

    /// Number of elements.
    pub open spec fn count(self, pool: &Pool<T>) -> nat {
        pool@.cells(self.handle()@).len()
    }

    /// The elements, in order.
    pub open spec fn elements(self, pool: &Pool<T>) -> Seq<T> {
        pool@.prefix(self.handle()@, self.count(pool) as int)
    }

    /// Address of the first element.
    pub open spec fn addr(self, pool: &Pool<T>) -> int {
        pool@.addr(self.handle()@)
    }

    /// Whether the array is well formed in `pool`.
    pub fn is_valid(&self, pool: &Pool<T>) -> (r: bool)
        requires
            pool.wf(),
        ensures
            r == self.wf(pool),
    {
        if !pool.is_active(self.ptr) {
            return false;
        }
        let (nn_ptr, count) = pool.resolve(self.ptr);
        let mut j: usize = 0;
        while j < count
            invariant
                j <= count,
                pool.wf(),
                pool@.active(self.handle()@),
                pool@.is_node_addr(nn_ptr as int),
                pool@.index_of(nn_ptr as int) == self.handle()@,
                count == pool@.cells(self.handle()@).len(),
                forall|k: int| 0 <= k < j ==> (#[trigger] pool@.cells(self.handle()@)[k]) is Some,
            decreases count - j,
        {
            if !pool.is_init(nn_ptr, j) {
                return false;
            }
            j = j + 1;
        }
        true
    }

    /// Moves `values` into the first vacant node of `pool` and wraps the
    /// fresh handle. When the pool has no vacant node the values come back.
    pub fn new(pool: &mut Pool<T>, values: Vec<T>) -> (r: Result<Self, Vec<T>>)
        requires
            old(pool).wf(),
        ensures
            final(pool).wf(),
            match r {
                Ok(a) => {
                    &&& a.wf(final(pool))
                    &&& a.elements(final(pool)) == values@
                    &&& 0 <= a.handle()@ < old(pool)@.nodes.len()
                    &&& !old(pool)@.active(a.handle()@)
                    &&& forall|k: int| 0 <= k < a.handle()@ ==> old(pool)@.active(k)
                    &&& final(pool)@ == old(pool)@.set_node(
                        a.handle()@,
                        Some(PoolModel::<T>::filled(values@)),
                    )
                },
                Err(v) => {
                    &&& v@ == values@
                    &&& final(pool)@ == old(pool)@
                    &&& forall|k: int| 0 <= k < old(pool)@.nodes.len() ==> old(pool)@.active(k)
                },
            },
    {
        match pool.activate_array(values) {
            Ok(ptr) => {
                let a = HeapArray { ptr, pd: PhantomData };
                Ok(a)
            },
            Err(values) => Err(values),
        }
    }

    /// Gives up ownership without destroying anything and returns the
    /// address of the first element and the number of elements. The pool is
    /// left as it is.
    pub fn leak(self, pool: &Pool<T>) -> (r: (usize, usize))
        requires
            self.wf(pool),
        ensures
            r.0 == self.addr(pool),
            r.1 == self.count(pool),
            pool@.is_node_addr(r.0 as int),
            pool@.index_of(r.0 as int) == self.handle()@,
    {
        let (nn_ptr, count) = pool.resolve(self.ptr);
        (nn_ptr, count)
    }

    /// Number of elements.
    pub fn len(&self, pool: &Pool<T>) -> (r: usize)
        requires
            self.wf(pool),
        ensures
            r == self.count(pool),
    {
        let (_nn_ptr, count) = pool.resolve(self.ptr);
        count
    }

    /// Shared access to all elements, in order.
    pub fn deref<'a>(&self, pool: &'a Pool<T>) -> (r: Vec<&'a T>)
        requires
            self.wf(pool),
        ensures
            r@.len() == self.count(pool),
            forall|j: int| 0 <= j < r@.len() ==> *(#[trigger] r@[j]) == self.elements(pool)[j],
    {
        let (nn_ptr, count) = pool.resolve(self.ptr);
        pool.from_raw_parts(nn_ptr, count)
    }

    /// Exclusive access to element `index`. What the borrower leaves there
    /// is that element from then on; nothing else in the pool changes.
    pub fn deref_mut<'a>(&mut self, pool: &'a mut Pool<T>, index: usize) -> (r: &'a mut T)
        requires
            old(self).wf(old(pool)),
            index < old(self).count(old(pool)),
        ensures
            *final(self) == *old(self),
            *r == old(self).elements(old(pool))[index as int],
            final(pool)@ == old(pool)@.set_cell(old(self).handle()@, index as int, Some(*final(r))),
            old(self).wf(final(pool)),
            old(self).elements(final(pool)) == old(self).elements(old(pool)).update(
                index as int,
                *final(r),
            ),
    {
        let (nn_ptr, _count) = pool.resolve(self.ptr);
        pool.load_mut(nn_ptr, index)
    }

    /// Destroys every element, each once and in order, then deactivates
    /// the node.
    pub fn drop(self, pool: &mut Pool<T>)
        requires
            self.wf(old(pool)),
        ensures
            final(pool).wf(),
            final(pool)@ == old(pool)@.set_node(self.handle()@, None).record_drops(
                self.elements(old(pool)),
            ),
    {
        let (start, count) = pool.resolve(self.ptr);
        let ghost before = pool@;
        let ghost h = self.handle()@;
        let ghost items = self.elements(pool);
        let mut i: usize = 0;
        proof {
            assert(PoolModel::<T>::cleared(before.cells(h), 0) =~= before.cells(h));
        }
        while i < count
            invariant
                i <= count,
                count == before.cells(h).len(),
                before.wf(),
                before.active(h),
                before.filled_to(h, count as int),
                start == before.addr(h),
                before.is_node_addr(start as int),
                before.index_of(start as int) == h,
                items == before.prefix(h, count as int),
                pool.wf(),
                pool@ == before.set_node(
                    h,
                    Some(PoolModel::<T>::cleared(before.cells(h), i as int)),
                ).record_drops(items.subrange(0, i as int)),
            decreases count - i,
        {
            pool.drop_in_place(start, i);
            proof {
                let cells = before.cells(h);
                assert(PoolModel::<T>::cleared(cells, i as int).update(i as int, None)
                    =~= PoolModel::<T>::cleared(cells, i + 1));
            }
            i = i + 1;
        }
        pool.deactivate(self.ptr);
    }
}

} // verus!
