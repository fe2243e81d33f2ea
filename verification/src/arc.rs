//! Shared, counted ownership of one value in a pool node.
//!
//! The value lives in a header region together with its counter:
//! the counter comes first, the payload follows at the first offset that
//! suits its alignment. Owners that hand a shared value across a boundary
//! pass the address of the payload alone, so the way back from a payload
//! address to its header is part of the protocol.
//!
//! Every operation that touches the counter borrows the pool exclusively,
//! which puts all increments and decrements of one counter in a single
//! order. The decrement that finds the counter at one is the last one, and
//! it alone tears the region down.

use crate::node::{Handle, Pool, PoolModel};
use core::marker::PhantomData;
use vstd::arithmetic::power2::is_pow2;
use vstd::layout::{align_of, size_of};
use vstd::prelude::*;

verus! {

/// `x` folded back into the range of `usize`, for `x` at most one range
/// away from it.
pub open spec fn wrapped(x: int) -> usize {
    if x > usize::MAX {
        (x - usize::MAX - 1) as usize
    } else if x < 0 {
        (x + usize::MAX + 1) as usize
    } else {
        x as usize
    }
}

/// Among powers of two, the smaller divides the larger.
proof fn lemma_pow2_divides(n: int, m: int)
    requires
        is_pow2(n),
        is_pow2(m),
        n <= m,
    ensures
        m % n == 0,
    decreases m,
{
    reveal(is_pow2);
    if n == 1 {
    } else {
        lemma_pow2_divides(n / 2, m / 2);
        let k = (m / 2) / (n / 2);
        vstd::arithmetic::div_mod::lemma_fundamental_div_mod(m / 2, n / 2);
        assert(m == n * k) by (nonlinear_arith)
            requires
                m / 2 == (n / 2) * k,
                m == 2 * (m / 2),
                n == 2 * (n / 2),
        ;
        vstd::arithmetic::div_mod::lemma_mod_multiples_basic(k, n);
        vstd::arithmetic::mul::lemma_mul_is_commutative(k, n);
    }
}

/// A power of two below twice another power of two is at most that one.
proof fn lemma_pow2_below(n: int, m: int)
    requires
        is_pow2(n),
        is_pow2(m),
        n < 2 * m,
    ensures
        n <= m,
    decreases n,
{
    reveal(is_pow2);
    if n == 1 || m == 1 {
    } else {
        lemma_pow2_below(n / 2, m / 2);
    }
}

/// The largest signed offset plus one is a power of two, and the address
/// range is twice that.
proof fn lemma_half_range()
    ensures
        is_pow2(isize::MAX + 1),
        usize::MAX == 2 * (isize::MAX + 1) - 1,
{
    vstd::arithmetic::power2::lemma2_to64();
    vstd::arithmetic::power2::lemma2_to64_rest();
    let e: nat = if isize::MAX == 0x7fff_ffff {
        31
    } else {
        63
    };
    vstd::arithmetic::power::lemma_pow_positive(2, e);
    vstd::arithmetic::power2::is_pow2_equiv(isize::MAX + 1);
}

/// What an owner of a shared value does with its share: make one more
/// owner, or give its own share up.
pub enum Step {
    /// One more owner is made and counted.
    Share,
    /// One owner gives up its share.
    Release,
}

/// Number of owners after the steps of `trace`, one after the other, when
/// there were `start` owners before.
pub open spec fn owners(start: int, trace: Seq<Step>) -> int
    decreases trace.len(),
{
    if trace.len() == 0 {
        start
    } else {
        owners(start, trace.drop_last()) + match trace.last() {
            Step::Share => 1int,
            Step::Release => -1int,
        }
    }
}

/// Every step of `trace` is taken while at least one owner is left to take
/// it, and the number of owners never leaves the range of the counter.
pub open spec fn orderly(start: int, trace: Seq<Step>) -> bool
    decreases trace.len(),
{
    if trace.len() == 0 {
        1 <= start <= usize::MAX
    } else {
        &&& orderly(start, trace.drop_last())
        &&& 1 <= owners(start, trace.drop_last())
        &&& owners(start, trace) <= usize::MAX
    }
}

/// The header region of a shared value: the payload, and the count of its
/// owners.
pub struct ArcInner<T> {
    /// The shared value.
    pub data: T,
    /// How many owners share it.
    pub refcnt: usize,
}

impl<T> ArcInner<T> {
    /// Bytes from the start of a header region to its payload: the counter
    /// comes first, and the payload follows at the first offset that is a
    /// multiple of its alignment.
    pub open spec fn header_len() -> nat {
        if align_of::<T>() > size_of::<usize>() {
            align_of::<T>()
        } else {
            size_of::<usize>()
        }
    }

    /// Bytes that a header region takes, from its start to the end of the
    /// payload.
    pub open spec fn footprint() -> nat {
        Self::header_len() + size_of::<T>()
    }

    /// Address of the payload of the header region at `region`.
    pub open spec fn payload_addr(region: int) -> int {
        region + Self::header_len()
    }

    /// Address of the header region whose payload is at `data`.
    pub open spec fn region_addr(data: int) -> int {
        data - Self::header_len()
    }

    /// The same header with another count.
    pub open spec fn with_count(self, count: usize) -> Self {
        ArcInner { data: self.data, refcnt: count }
    }

    /// The payload offset is what the layout rule says: it leaves room for
    /// the counter, it is a multiple of the payload's alignment, and no
    /// smaller offset has both properties.
    pub proof fn lemma_header_len()
        ensures
            Self::header_len() >= size_of::<usize>(),
            Self::header_len() % align_of::<T>() == 0,
            forall|o: nat|
                size_of::<usize>() <= o < Self::header_len() ==> #[trigger] (o % align_of::<T>())
                    != 0,
    {
        broadcast use vstd::layout::align_properties;

        let a = align_of::<T>() as int;
        let w = size_of::<usize>() as int;
        vstd::layout::usize_size_pow2();
        if a > w {
            assert forall|o: nat| w <= o < a implies #[trigger] (o % align_of::<T>()) != 0 by {
                vstd::arithmetic::div_mod::lemma_small_mod(o, a as nat);
            }
            vstd::arithmetic::div_mod::lemma_mod_self_0(a);
        } else {
            lemma_pow2_divides(a, w);
        }
    }

    /// Going from a header region to its payload and back ends where it
    /// began, whatever the payload type and wherever the region lies; and
    /// the payload of an aligned region is itself aligned.
    pub proof fn lemma_recovery(region: int)
        ensures
            Self::region_addr(Self::payload_addr(region)) == region,
            Self::payload_addr(region) >= region + size_of::<usize>(),
            region % (align_of::<T>() as int) == 0 ==> Self::payload_addr(region) % (align_of::<
                T,
            >() as int) == 0,
    {
        Self::lemma_header_len();
        let a = align_of::<T>() as int;
        let h = Self::header_len() as int;
        if region % a == 0 {
            vstd::arithmetic::div_mod::lemma_mod_adds(region, h, a);
        }
    }

    /// A header for a value with one owner.
    pub fn new(data: T) -> (r: Self)
        ensures
            r.data == data,
            r.refcnt == 1,
    {
        ArcInner { data, refcnt: 1 }
    }

    /// Adds `val` to the counter, wrapping around at the end of the range,
    /// and returns the count from before.
    pub fn fetch_add(&mut self, val: usize) -> (prev: usize)
        ensures
            prev == old(self).refcnt,
            *final(self) == old(self).with_count(wrapped(prev + val)),
    {
        let prev = self.refcnt;
        if val > usize::MAX - prev {
            self.refcnt = val - (usize::MAX - prev) - 1;
        } else {
            self.refcnt = prev + val;
        }
        prev
    }

    /// Subtracts `val` from the counter, wrapping around at zero, and
    /// returns the count from before.
    pub fn fetch_sub(&mut self, val: usize) -> (prev: usize)
        ensures
            prev == old(self).refcnt,
            *final(self) == old(self).with_count(wrapped(prev - val)),
    {
        let prev = self.refcnt;
        if val > prev {
            self.refcnt = usize::MAX - (val - prev) + 1;
        } else {
            self.refcnt = prev - val;
        }
        prev
    }

    /// Bytes from the start of a header region to its payload.
    fn header_bytes() -> (r: usize)
        ensures
            r == Self::header_len(),
            1 <= r <= isize::MAX + 1,
    {
        vstd::layout::layout_for_type_is_valid::<T>();
        vstd::layout::layout_for_type_is_valid::<usize>();
        let word = core::mem::size_of::<usize>();
        let align = core::mem::align_of::<T>();
        proof {
            vstd::layout::usize_size_pow2();
            lemma_half_range();
            lemma_pow2_below(align as int, isize::MAX + 1);
            lemma_pow2_below(word as int, isize::MAX + 1);
        }
        if align > word {
            align
        } else {
            word
        }
    }

    /// The signed distance from a payload to the start of its header
    /// region. It is measured on a header region laid out at the bottom of
    /// the address space, from the address of its payload back to its own;
    /// it depends on the payload type alone.
    pub fn data_offset() -> (r: isize)
        ensures
            r == -(Self::header_len() as int),
    {
        let dummy_ptr: usize = 0;
        let data_ptr: usize = dummy_ptr + Self::header_bytes();
        let short: usize = data_ptr - dummy_ptr - 1;
        -(short as isize) - 1
    }

    /// Address of the payload of the header region at `region`.
    pub fn data_ptr(region: usize) -> (r: usize)
        requires
            Self::payload_addr(region as int) <= usize::MAX,
        ensures
            r == Self::payload_addr(region as int),
    {
        region + Self::header_bytes()
    }

    /// Address of the header region whose payload is at `data`.
    pub fn from_leaked_ptr(data: usize) -> (r: usize)
        requires
            Self::region_addr(data as int) >= 0,
        ensures
            r == Self::region_addr(data as int),
    {
        let offset = Self::data_offset();
        data.checked_add_signed(offset).unwrap()
    }
}

/// One owner of a shared value in a `Pool<ArcInner<T>>`.
///
/// All owners of one value hold the same handle. The value is destroyed,
/// and its node given back, when the last of them is dropped.
pub struct HeapArc<T> {
    ptr: Handle,
    pd: PhantomData<T>,
}

impl<T> HeapArc<T> {
    /// The handle this owner shares.
    pub closed spec fn spec_handle(&self) -> Handle {
        self.ptr
    }

    /// The handle this owner shares.
    #[verifier::when_used_as_spec(spec_handle)]
    pub fn handle(&self) -> (r: Handle)
        ensures
            r == self.handle(),
    {
        self.ptr
    }

    /// A header region for `T` fits in one node of `pool`.
    pub open spec fn fits(pool: &Pool<ArcInner<T>>) -> bool {
        ArcInner::<T>::footprint() <= pool@.stride
    }

    /// Node `h` of `pool` is active and holds one header.
    pub open spec fn live(pool: &Pool<ArcInner<T>>, h: int) -> bool {
        &&& pool.wf()
        &&& Self::fits(pool)
        &&& pool@.active(h)
        &&& pool@.cells(h).len() == 1
        &&& pool@.cells(h)[0] is Some
    }

    /// The owner names a live header of `pool`.
    pub open spec fn wf(self, pool: &Pool<ArcInner<T>>) -> bool {
        Self::live(pool, self.handle()@)
    }

    /// The header that the owner shares.
    pub open spec fn inner(self, pool: &Pool<ArcInner<T>>) -> ArcInner<T> {
        pool@.cells(self.handle()@)[0].unwrap()
    }

    /// The shared value.
    pub open spec fn value(self, pool: &Pool<ArcInner<T>>) -> T {
        self.inner(pool).data
    }

    /// The count of owners, as the header records it.
    pub open spec fn count(self, pool: &Pool<ArcInner<T>>) -> usize {
        self.inner(pool).refcnt
    }

    /// Address of the shared value.
    pub open spec fn addr(self, pool: &Pool<ArcInner<T>>) -> int {
        ArcInner::<T>::payload_addr(pool@.addr(self.handle()@))
    }

    /// `ptr` is the address of the payload of a live header of `pool`.
    pub open spec fn adoptable(pool: &Pool<ArcInner<T>>, ptr: int) -> bool {
        &&& ArcInner::<T>::region_addr(ptr) >= 0
        &&& pool@.is_node_addr(ArcInner::<T>::region_addr(ptr))
        &&& Self::live(pool, pool@.index_of(ArcInner::<T>::region_addr(ptr)))
    }

    /// The node that the payload address `ptr` belongs to.
    pub open spec fn owner_of(pool: &Pool<ArcInner<T>>, ptr: int) -> int {
        pool@.index_of(ArcInner::<T>::region_addr(ptr))
    }

    /// The pool after one more owner of the header in node `h` has been
    /// counted.
    pub open spec fn counted(pool: PoolModel<ArcInner<T>>, h: int) -> PoolModel<ArcInner<T>> {
        let inner = pool.cells(h)[0].unwrap();
        pool.set_cell(h, 0, Some(inner.with_count(wrapped(inner.refcnt + 1))))
    }

    /// The pool after one owner of the header in node `h` has gone: with
    /// the count one lower, or, where it was one, with the header destroyed
    /// and the node vacant.
    pub open spec fn released(pool: PoolModel<ArcInner<T>>, h: int) -> PoolModel<ArcInner<T>> {
        let inner = pool.cells(h)[0].unwrap();
        if inner.refcnt == 1 {
            pool.set_node(h, None).record_drop(inner.with_count(0))
        } else {
            pool.set_cell(h, 0, Some(inner.with_count(wrapped(inner.refcnt - 1))))
        }
    }

    /// The pool after the owners of the header in node `h` have taken the
    /// steps of `trace`, one after the other.
    pub open spec fn run(pool: PoolModel<ArcInner<T>>, h: int, trace: Seq<Step>) -> PoolModel<
        ArcInner<T>,
    >
        decreases trace.len(),
    {
        if trace.len() == 0 {
            pool
        } else {
            let before = Self::run(pool, h, trace.drop_last());
            match trace.last() {
                Step::Share => Self::counted(before, h),
                Step::Release => Self::released(before, h),
            }
        }
    }

    /// However the owners of one header interleave their clones and drops,
    /// the counter equals the number of owners for as long as one is left,
    /// and nothing is destroyed in that time. The header is destroyed
    /// exactly once and its node vacated, by the step that takes the last
    /// owner away, which can only be the last step of all.
    pub proof fn lemma_last_owner_tears_down(
        pool: PoolModel<ArcInner<T>>,
        h: int,
        trace: Seq<Step>,
    )
        requires
            pool.active(h),
            pool.cells(h).len() == 1,
            pool.cells(h)[0] is Some,
            orderly(pool.cells(h)[0].unwrap().refcnt as int, trace),
        ensures
            ({
                let inner = pool.cells(h)[0].unwrap();
                let left = owners(inner.refcnt as int, trace);
                let end = Self::run(pool, h, trace);
                &&& 0 <= left <= usize::MAX
                &&& left > 0 ==> end == pool.set_cell(h, 0, Some(inner.with_count(left as usize)))
                &&& left == 0 ==> end == pool.set_node(h, None).record_drop(inner.with_count(0))
            }),
        decreases trace.len(),
    {
        let inner = pool.cells(h)[0].unwrap();
        if trace.len() == 0 {
            assert(pool =~= pool.set_cell(h, 0, Some(inner.with_count(inner.refcnt)))) by {
                assert(pool.cells(h).update(0, Some(inner)) =~= pool.cells(h));
            }
        } else {
            // By induction, one owner at least is left before the last
            // step, and the pool differs from the first one in the count
            // alone. The last step writes the count once more, or tears
            // the header down.
            let earlier = trace.drop_last();
            Self::lemma_last_owner_tears_down(pool, h, earlier);
            let mid = Self::run(pool, h, earlier);
            let left = owners(inner.refcnt as int, trace);
            if left > 0 {
                let next = Some(inner.with_count(left as usize));
                assert(mid.cells(h).update(0, next) =~= pool.cells(h).update(0, next));
            }
        }
    }

    /// Leaking a share and adopting its address undo each other: the
    /// address that `leak` returns is one that the adopting operations
    /// accept, and it leads back to the very header that was shared, with
    /// the value and the counter as they were. Counting one more owner at
    /// that address raises the counter by one and changes nothing else.
    pub proof fn lemma_leak_then_adopt(self, pool: &Pool<ArcInner<T>>)
        requires
            self.wf(pool),
        ensures
            0 <= self.addr(pool) <= usize::MAX,
            Self::adoptable(pool, self.addr(pool)),
            Self::owner_of(pool, self.addr(pool)) == self.handle()@,
            forall|other: Self|
                other.handle()@ == Self::owner_of(pool, self.addr(pool)) ==> {
                    &&& other.handle() == self.handle()
                    &&& other.value(pool) == self.value(pool)
                    &&& other.count(pool) == self.count(pool)
                },
            self.count(pool) < usize::MAX ==> Self::counted(pool@, self.handle()@)
                == pool@.set_cell(
                self.handle()@,
                0,
                Some(self.inner(pool).with_count((self.count(pool) + 1) as usize)),
            ),
    {
        let h = self.handle()@;
        pool@.lemma_addr_index(h);
        pool@.lemma_index_addr(pool@.addr(h));
        assert forall|other: Self|
            other.handle()@ == Self::owner_of(pool, self.addr(pool)) implies other.handle()
            == self.handle() by {
            Handle::lemma_view_injective(other.handle(), self.handle());
        }
    }

    /// Whether a header region for `T` fits in one node of `pool`.
    fn fits_in(pool: &Pool<ArcInner<T>>) -> (r: bool)
        ensures
            r == Self::fits(pool),
    {
        vstd::layout::layout_for_type_is_valid::<T>();
        let room = pool.stride();
        let head = ArcInner::<T>::header_bytes();
        let size = core::mem::size_of::<T>();
        head <= room && size <= room - head
    }

    /// Whether the owner is well formed in `pool`.
    pub fn is_valid(&self, pool: &Pool<ArcInner<T>>) -> (r: bool)
        requires
            pool.wf(),
        ensures
            r == self.wf(pool),
    {
        if !Self::fits_in(pool) || !pool.is_active(self.ptr) {
            return false;
        }
        let (nn, count) = pool.resolve(self.ptr);
        count == 1 && pool.is_init(nn, 0)
    }

    /// Whether `ptr` is an address that the adopting operations accept.
    pub fn is_adoptable(pool: &Pool<ArcInner<T>>, ptr: usize) -> (r: bool)
        requires
            pool.wf(),
        ensures
            r == Self::adoptable(pool, ptr as int),
    {
        if !Self::fits_in(pool) {
            return false;
        }
        let region = match ptr.checked_add_signed(ArcInner::<T>::data_offset()) {
            Some(region) => region,
            None => {
                return false;
            },
        };
        match pool.lookup(region) {
            Some(h) => {
                let (_nn, count) = pool.resolve(h);
                count == 1 && pool.is_init(region, 0)
            },
            None => false,
        }
    }

    /// Moves `value` into a fresh header with a count of one, in the first
    /// vacant node of `pool`. The value comes back when a header for `T`
    /// does not fit in a node, or when no node is vacant.
    pub fn new(pool: &mut Pool<ArcInner<T>>, value: T) -> (r: Result<Self, T>)
        requires
            old(pool).wf(),
        ensures
            final(pool).wf(),
            match r {
                Ok(a) => {
                    &&& a.wf(final(pool))
                    &&& 0 <= a.handle()@ < old(pool)@.nodes.len()
                    &&& !old(pool)@.active(a.handle()@)
                    &&& forall|k: int| 0 <= k < a.handle()@ ==> old(pool)@.active(k)
                    &&& final(pool)@ == old(pool)@.set_node(
                        a.handle()@,
                        Some(seq![Some(ArcInner { data: value, refcnt: 1 })]),
                    )
                },
                Err(v) => {
                    &&& v == value
                    &&& final(pool)@ == old(pool)@
                    &&& !Self::fits(old(pool)) || forall|k: int|
                        0 <= k < old(pool)@.nodes.len() ==> old(pool)@.active(k)
                },
            },
    {
        if !Self::fits_in(pool) {
            return Err(value);
        }
        match pool.activate(ArcInner::new(value)) {
            Ok(ptr) => Ok(HeapArc { ptr, pd: PhantomData }),
            Err(inner) => Err(inner.data),
        }
    }

    /// Gives up this owner's share without touching the counter and
    /// returns the address of the shared value. The share is not released:
    /// it travels with the address.
    pub fn leak(self, pool: &Pool<ArcInner<T>>) -> (r: usize)
        requires
            self.wf(pool),
        ensures
            r == self.addr(pool),
            Self::adoptable(pool, r as int),
            Self::owner_of(pool, r as int) == self.handle()@,
    {
        let (nn, _count) = pool.resolve(self.ptr);
        proof {
            pool@.lemma_index_addr(nn as int);
        }
        ArcInner::<T>::data_ptr(nn)
    }

    /// Takes over a share that was leaked at `ptr`. The counter is left as
    /// it is.
    pub fn from_leaked(pool: &Pool<ArcInner<T>>, ptr: usize) -> (r: Self)
        requires
            Self::adoptable(pool, ptr as int),
        ensures
            r.wf(pool),
            r.handle()@ == Self::owner_of(pool, ptr as int),
            r.addr(pool) == ptr,
    {
        let arc_inner_nn = ArcInner::<T>::from_leaked_ptr(ptr);
        HeapArc { ptr: pool.from_leaked_ptr(arc_inner_nn), pd: PhantomData }
    }

    /// Makes one more owner of the value whose address is `ptr`, beside
    /// whoever holds that address, and counts it.
    pub fn clone_from_leaked(pool: &mut Pool<ArcInner<T>>, ptr: usize) -> (r: Self)
        requires
            Self::adoptable(old(pool), ptr as int),
        ensures
            r.handle()@ == Self::owner_of(old(pool), ptr as int),
            final(pool)@ == Self::counted(old(pool)@, r.handle()@),
            r.wf(final(pool)),
    {
        let new = Self::from_leaked(pool, ptr);
        let (aitem_nn, _count) = pool.resolve(new.ptr);
        let aitem = pool.load_mut(aitem_nn, 0);
        let _prev = aitem.fetch_add(1);
        new
    }

    /// Counts one more owner of the value whose address is `ptr` without
    /// making one: for a party that will adopt the address later.
    pub fn increment_count(pool: &mut Pool<ArcInner<T>>, ptr: usize)
        requires
            Self::adoptable(old(pool), ptr as int),
        ensures
            final(pool)@ == Self::counted(old(pool)@, Self::owner_of(old(pool), ptr as int)),
            Self::adoptable(final(pool), ptr as int),
    {
        let arc_inner_nn = ArcInner::<T>::from_leaked_ptr(ptr);
        let aitem = pool.load_mut(arc_inner_nn, 0);
        let _prev = aitem.fetch_add(1);
    }

    /// Shared access to the value.
    pub fn deref<'a>(&self, pool: &'a Pool<ArcInner<T>>) -> (r: &'a T)
        requires
            self.wf(pool),
        ensures
            *r == self.value(pool),
    {
        let (aiptr, _count) = pool.resolve(self.ptr);
        let aitem = pool.read(aiptr, 0);
        &aitem.data
    }

    /// The count of owners, as the header records it.
    pub fn strong_count(&self, pool: &Pool<ArcInner<T>>) -> (r: usize)
        requires
            self.wf(pool),
        ensures
            r == self.count(pool),
    {
        let (aiptr, _count) = pool.resolve(self.ptr);
        pool.read(aiptr, 0).refcnt
    }

    /// Makes one more owner of the same value and counts it.
    pub fn clone(&self, pool: &mut Pool<ArcInner<T>>) -> (r: Self)
        requires
            self.wf(old(pool)),
        ensures
            r.handle() == self.handle(),
            final(pool)@ == Self::counted(old(pool)@, self.handle()@),
            r.wf(final(pool)),
    {
        let (aitem_nn, _count) = pool.resolve(self.ptr);
        let aitem = pool.load_mut(aitem_nn, 0);
        let _prev = aitem.fetch_add(1);
        HeapArc { ptr: self.ptr, pd: PhantomData }
    }

    /// Releases this owner's share: takes one off the counter, and where
    /// that was the last share, destroys the header and then deactivates
    /// the node. The counter must not be at zero already.
    pub fn drop(self, pool: &mut Pool<ArcInner<T>>)
        requires
            self.wf(old(pool)),
            self.count(old(pool)) != 0,
        ensures
            final(pool).wf(),
            final(pool)@ == Self::released(old(pool)@, self.handle()@),
    {
        let (aitem_ptr, _count) = pool.resolve(self.ptr);
        let aitem = pool.load_mut(aitem_ptr, 0);
        let prev = aitem.fetch_sub(1);
        let needs_drop = prev == 1;
        if needs_drop {
            pool.drop_in_place(aitem_ptr, 0);
            pool.deactivate(self.ptr);
        }
    }
}

} // verus!
