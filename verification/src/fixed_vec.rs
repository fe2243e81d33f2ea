//! Exclusive ownership of a fixed-capacity buffer in a pool node, filled
//! from the front.

use crate::node::{Handle, Pool, PoolModel};
use core::marker::PhantomData;
use vstd::prelude::*;

verus! {

/// Owns one node of a `Pool<T>` whose run is storage for up to `capacity`
/// values. The vector keeps its own length: the cells below it are
/// initialised, the cells from it on are not and are never read or
/// destroyed.
pub struct HeapFixedVec<T> {
    ptr: Handle,
    len: usize,
    pd: PhantomData<T>,
}

impl<T> HeapFixedVec<T> {
    /// The handle this vector owns.
    pub closed spec fn spec_handle(&self) -> Handle {
        self.ptr
    }

    /// The handle this vector owns.
    #[verifier::when_used_as_spec(spec_handle)]
    pub fn handle(&self) -> (r: Handle)
        ensures
            r == self.handle(),
    {
        self.ptr
    }

    /// Number of values pushed so far.
    pub closed spec fn length(self) -> nat {
        self.len as nat
    }

    /// Number of cells in the buffer.
    pub open spec fn capacity(self, pool: &Pool<T>) -> nat {
        pool@.cells(self.handle()@).len()
    }

    /// The vector names an active node of `pool`; the first `length` cells
    /// of its run are initialised and the others are not.
    pub open spec fn wf(self, pool: &Pool<T>) -> bool {
        &&& pool.wf()
        &&& pool@.active(self.handle()@)
        &&& pool@.filled_to(self.handle()@, self.length() as int)
    }

    /// The values pushed so far, in order.
    pub open spec fn elements(self, pool: &Pool<T>) -> Seq<T> {
        pool@.prefix(self.handle()@, self.length() as int)
    }

    /// Whether the vector is well formed in `pool`.
    pub fn is_valid(&self, pool: &Pool<T>) -> (r: bool)
        requires
            pool.wf(),
        ensures
            r == self.wf(pool),
    {
        if !pool.is_active(self.ptr) {
            return false;
        }
        let (nn_ptr, count) = pool.resolve(self.ptr);
        if self.len > count {
            return false;
        }
        let mut j: usize = 0;
        while j < count
            invariant
                j <= count,
                self.len <= count,
                self.length() == self.len,
                pool.wf(),
                pool@.active(self.handle()@),
                pool@.is_node_addr(nn_ptr as int),
                pool@.index_of(nn_ptr as int) == self.handle()@,
                count == pool@.cells(self.handle()@).len(),
                forall|k: int|
                    0 <= k < j && k < self.len ==> (#[trigger] pool@.cells(self.handle()@)[k])
                        is Some,
                forall|k: int|
                    self.len <= k < j ==> (#[trigger] pool@.cells(self.handle()@)[k]) is None,
            decreases count - j,
        {
            if pool.is_init(nn_ptr, j) != (j < self.len) {
                return false;
            }
            j = j + 1;
        }
        true
    }

    /// Activates the first vacant node of `pool` with uninitialised storage
    /// for `capacity` values and wraps the fresh handle in an empty vector.
    /// `None`, and no change, when the pool has no vacant node.
    pub fn new(pool: &mut Pool<T>, capacity: usize) -> (r: Option<Self>)
        requires
            old(pool).wf(),
        ensures
            final(pool).wf(),
            match r {
                Some(v) => {
                    &&& v.wf(final(pool))
                    &&& v.length() == 0
                    &&& v.capacity(final(pool)) == capacity
                    &&& 0 <= v.handle()@ < old(pool)@.nodes.len()
                    &&& !old(pool)@.active(v.handle()@)
                    &&& forall|k: int| 0 <= k < v.handle()@ ==> old(pool)@.active(k)
                    &&& final(pool)@ == old(pool)@.set_node(
                        v.handle()@,
                        Some(PoolModel::<T>::blank(capacity as nat)),
                    )
                },
                None => {
                    &&& final(pool)@ == old(pool)@
                    &&& forall|k: int| 0 <= k < old(pool)@.nodes.len() ==> old(pool)@.active(k)
                },
            },
    {
        match pool.activate_uninit(capacity) {
            Some(ptr) => Some(HeapFixedVec { ptr, len: 0, pd: PhantomData }),
            None => None,
        }
    }

    /// Appends `item` in the first cell that is not initialised. When the
    /// buffer is full the item comes back and nothing changes.
    pub fn push(&mut self, pool: &mut Pool<T>, item: T) -> (r: Result<(), T>)
        requires
            old(self).wf(old(pool)),
        ensures
            final(self).handle() == old(self).handle(),
            match r {
                Ok(()) => {
                    &&& old(self).length() < old(self).capacity(old(pool))
                    &&& final(self).length() == old(self).length() + 1
                    &&& final(pool)@ == old(pool)@.set_cell(
                        old(self).handle()@,
                        old(self).length() as int,
                        Some(item),
                    )
                    &&& final(self).wf(final(pool))
                    &&& final(self).elements(final(pool)) == old(self).elements(old(pool)).push(
                        item,
                    )
                },
                Err(rejected) => {
                    &&& rejected == item
                    &&& old(self).length() == old(self).capacity(old(pool))
                    &&& *final(self) == *old(self)
                    &&& *final(pool) == *old(pool)
                },
            },
    {
        let (nn_ptr, count) = pool.resolve(self.ptr);
        if count == self.len {
            return Err(item);
        }
        pool.write(nn_ptr, self.len, item);
        self.len = self.len + 1;
        Ok(())
    }

    /// Whether the buffer has no room left.
    pub fn is_full(&self, pool: &Pool<T>) -> (r: bool)
        requires
            self.wf(pool),
        ensures
            r == (self.length() == self.capacity(pool)),
    {
        let (_nn_ptr, count) = pool.resolve(self.ptr);
        count == self.len
    }

    /// Number of values pushed so far.
    pub fn len(&self) -> (r: usize)
        ensures
            r == self.length(),
    {
        self.len
    }

    /// Shared access to the values pushed so far, in order.
    pub fn deref<'a>(&self, pool: &'a Pool<T>) -> (r: Vec<&'a T>)
        requires
            self.wf(pool),
        ensures
            r@.len() == self.length(),
            forall|j: int| 0 <= j < r@.len() ==> *(#[trigger] r@[j]) == self.elements(pool)[j],
    {
        let (nn_ptr, _count) = pool.resolve(self.ptr);
        pool.from_raw_parts(nn_ptr, self.len)
    }

    /// Exclusive access to the value at `index`, which must be below the
    /// length. What the borrower leaves there is that value from then on;
    /// nothing else in the pool changes.
    pub fn deref_mut<'a>(&mut self, pool: &'a mut Pool<T>, index: usize) -> (r: &'a mut T)
        requires
            old(self).wf(old(pool)),
            index < old(self).length(),
        ensures
            *final(self) == *old(self),
            *r == old(self).elements(old(pool))[index as int],
            final(pool)@ == old(pool)@.set_cell(old(self).handle()@, index as int, Some(*final(r))),
            old(self).wf(final(pool)),
            old(self).elements(final(pool)) == old(self).elements(old(pool)).update(
                index as int,
                *final(r),
            ),
    {
        let (nn_ptr, _count) = pool.resolve(self.ptr);
        pool.load_mut(nn_ptr, index)
    }

    /// Destroys the values pushed so far, each once and in order, and no
    /// other cell; then deactivates the node.
    pub fn drop(self, pool: &mut Pool<T>)
        requires
            self.wf(old(pool)),
        ensures
            final(pool).wf(),
            final(pool)@ == old(pool)@.set_node(self.handle()@, None).record_drops(
                self.elements(old(pool)),
            ),
    {
        let (start, _count) = pool.resolve(self.ptr);
        let ghost before = pool@;
        let ghost h = self.handle()@;
        let ghost items = self.elements(pool);
        let mut i: usize = 0;
        proof {
            assert(PoolModel::<T>::cleared(before.cells(h), 0) =~= before.cells(h));
        }
        while i < self.len
            invariant
                i <= self.len,
                self.length() == self.len,
                before.wf(),
                before.active(h),
                before.filled_to(h, self.len as int),
                start == before.addr(h),
                before.is_node_addr(start as int),
                before.index_of(start as int) == h,
                items == before.prefix(h, self.len as int),
                pool.wf(),
                pool@ == before.set_node(
                    h,
                    Some(PoolModel::<T>::cleared(before.cells(h), i as int)),
                ).record_drops(items.subrange(0, i as int)),
            decreases self.len - i,
        {
            pool.drop_in_place(start, i);
            proof {
                let cells = before.cells(h);
                assert(PoolModel::<T>::cleared(cells, i as int).update(i as int, None)
                    =~= PoolModel::<T>::cleared(cells, i + 1));
            }
            i = i + 1;
        }
        pool.deactivate(self.ptr);
    }
}

} // verus!
