//! The node pool that the containers are built on.
//!
//! A [`Pool`] is a deterministic, in-memory node allocator. It owns a fixed
//! number of nodes laid out at a fixed stride from an origin address. A node
//! is either vacant or active; an active node holds a run of cells, and each
//! cell is either initialised (holds a value) or not. A [`Handle`] names a
//! node. Resolving a handle yields the address of the node's first cell, and
//! every access to a cell goes through that address, so that a container is
//! always one step removed from its data: container, handle, address, value.
//!
//! The pool never destroys a value behind the caller's back. A value leaves
//! its cell only through [`Pool::drop_in_place`], which records it in the
//! pool's ghost history of destroyed values, and a node can be deactivated
//! only once none of its cells is initialised.

use vstd::prelude::*;
use vstd::arithmetic::div_mod::lemma_fundamental_div_mod_converse;
use vstd::arithmetic::mul::lemma_mul_inequality;

verus! {

/// Names one node of a [`Pool`]. It says nothing about whether the node is
/// active: that is a matter of the pool's state.
#[derive(Clone, Copy, PartialEq, Eq, Structural, Debug)]
pub struct Handle {
    index: usize,
}

impl View for Handle {
    type V = int;

    /// The position of the node in its pool.
    closed spec fn view(&self) -> int {
        self.index as int
    }
}

impl Handle {
    /// Two handles that name the same position are the same handle.
    pub proof fn lemma_view_injective(a: Handle, b: Handle)
        ensures
            a@ == b@ <==> a == b,
            0 <= a@ <= usize::MAX,
    {
    }
}

/// What a pool holds, as a mathematical value.
#[verifier::ext_equal]
pub struct PoolModel<V> {
    /// Address of the first cell of node 0.
    pub origin: int,
    /// Distance in bytes from one node to the next.
    pub stride: int,
    /// One entry per node: `None` for a vacant node, the run of cells for an
    /// active one. A cell is `None` while it is not initialised.
    pub nodes: Seq<Option<Seq<Option<V>>>>,
    /// Every value destroyed in place so far, oldest first.
    pub dropped: Seq<V>,
}

impl<V> PoolModel<V> {
    /// The nodes fit in the address space and no two share an address.
    pub open spec fn wf(self) -> bool {
        &&& 0 <= self.origin
        &&& 1 <= self.stride
        &&& self.origin + self.nodes.len() * self.stride <= usize::MAX
    }

    /// Node `h` exists and is active.
    pub open spec fn active(self, h: int) -> bool {
        0 <= h < self.nodes.len() && self.nodes[h] is Some
    }

    /// The cells of the active node `h`.
    pub open spec fn cells(self, h: int) -> Seq<Option<V>> {
        self.nodes[h].unwrap()
    }

    /// Address of the first cell of node `h`.
    pub open spec fn addr(self, h: int) -> int {
        self.origin + h * self.stride
    }

    /// The node whose region contains `addr`.
    pub open spec fn index_of(self, addr: int) -> int {
        (addr - self.origin) / self.stride
    }

    /// `addr` is the address that some active node resolves to.
    pub open spec fn is_node_addr(self, addr: int) -> bool {
        &&& self.origin <= addr
        &&& (addr - self.origin) % self.stride == 0
        &&& self.active(self.index_of(addr))
    }

    /// Cell `j` of the active node at `addr` exists.
    pub open spec fn has_cell(self, addr: int, j: int) -> bool {
        self.is_node_addr(addr) && 0 <= j < self.cells(self.index_of(addr)).len()
    }

    /// Cell `j` of the active node at `addr` exists and is initialised.
    pub open spec fn holds(self, addr: int, j: int) -> bool {
        self.has_cell(addr, j) && self.cells(self.index_of(addr))[j] is Some
    }

    /// The value in cell `j` of the node at `addr`.
    pub open spec fn value(self, addr: int, j: int) -> V {
        self.cells(self.index_of(addr))[j].unwrap()
    }

    /// No cell of node `h` is initialised.
    pub open spec fn hollow(self, h: int) -> bool {
        forall|j: int| 0 <= j < self.cells(h).len() ==> (#[trigger] self.cells(h)[j]) is None
    }

    /// The same pool with node `h` replaced.
    pub open spec fn set_node(self, h: int, node: Option<Seq<Option<V>>>) -> Self {
        PoolModel { nodes: self.nodes.update(h, node), ..self }
    }

    /// The same pool with cell `j` of node `h` replaced.
    pub open spec fn set_cell(self, h: int, j: int, cell: Option<V>) -> Self {
        self.set_node(h, Some(self.cells(h).update(j, cell)))
    }

    /// The same pool with `value` appended to the history of destroyed values.
    pub open spec fn record_drop(self, value: V) -> Self {
        PoolModel { dropped: self.dropped.push(value), ..self }
    }

    /// The same pool with `values` appended, in order, to the history of
    /// destroyed values.
    pub open spec fn record_drops(self, values: Seq<V>) -> Self {
        PoolModel { dropped: self.dropped + values, ..self }
    }

    /// The values in the first `n` cells of node `h`.
    pub open spec fn prefix(self, h: int, n: int) -> Seq<V> {
        Seq::new(n as nat, |j: int| self.cells(h)[j].unwrap())
    }

    /// The first `n` cells of node `h` are initialised, and no other.
    pub open spec fn filled_to(self, h: int, n: int) -> bool {
        &&& 0 <= n <= self.cells(h).len()
        &&& forall|j: int| 0 <= j < n ==> (#[trigger] self.cells(h)[j]) is Some
        &&& forall|j: int| n <= j < self.cells(h).len() ==> (#[trigger] self.cells(h)[j]) is None
    }

    /// The run `cells` with its first `n` cells no longer initialised.
    pub open spec fn cleared(cells: Seq<Option<V>>, n: int) -> Seq<Option<V>> {
        Seq::new(
            cells.len(),
            |j: int|
                if j < n {
                    None
                } else {
                    cells[j]
                },
        )
    }

    /// A run of `values`, every cell initialised.
    pub open spec fn filled(values: Seq<V>) -> Seq<Option<V>> {
        Seq::new(values.len(), |j: int| Some(values[j]))
    }

    /// A run of `count` cells, none initialised.
    pub open spec fn blank(count: nat) -> Seq<Option<V>> {
        Seq::new(count, |j: int| None)
    }

    /// Resolving and recovering are inverse to each other: the address of
    /// node `h` leads back to `h`, and to no other node.
    pub proof fn lemma_addr_index(self, h: int)
        requires
            self.wf(),
            0 <= h < self.nodes.len(),
        ensures
            self.origin <= self.addr(h) <= usize::MAX,
            (self.addr(h) - self.origin) % self.stride == 0,
            self.index_of(self.addr(h)) == h,
    {
        lemma_fundamental_div_mod_converse(h * self.stride, self.stride, h, 0);
        lemma_mul_inequality(h, self.nodes.len() as int, self.stride);
        lemma_mul_inequality(0, h, self.stride);
    }

    /// A node address is the address of the node it leads to.
    pub proof fn lemma_index_addr(self, addr: int)
        requires
            self.wf(),
            self.is_node_addr(addr),
        ensures
            self.addr(self.index_of(addr)) == addr,
            addr + self.stride <= usize::MAX,
    {
        let d = addr - self.origin;
        vstd::arithmetic::div_mod::lemma_fundamental_div_mod(d, self.stride);
        vstd::arithmetic::mul::lemma_mul_is_commutative(self.stride, d / self.stride);
        lemma_mul_inequality(d / self.stride + 1, self.nodes.len() as int, self.stride);
        vstd::arithmetic::mul::lemma_mul_is_distributive_add_other_way(
            self.stride,
            d / self.stride,
            1,
        );
    }
}

struct Node<V> {
    active: bool,
    cells: Vec<Option<V>>,
}

impl<V> Node<V> {
    spec fn model(self) -> Option<Seq<Option<V>>> {
        if self.active {
            Some(self.cells@)
        } else {
            None
        }
    }
}

/// A fixed set of nodes at a fixed stride, with the values they hold.
///
/// Storage for a node is set up when the node is first activated, so a pool
/// costs no more than the nodes that were ever in use.
pub struct Pool<V> {
    origin: usize,
    stride: usize,
    capacity: usize,
    nodes: Vec<Node<V>>,
    dropped: Ghost<Seq<V>>,
}

impl<V> View for Pool<V> {
    type V = PoolModel<V>;

    closed spec fn view(&self) -> PoolModel<V> {
        PoolModel {
            origin: self.origin as int,
            stride: self.stride as int,
            nodes: Seq::new(
                self.capacity as nat,
                |i: int|
                    if i < self.nodes.len() {
                        self.nodes[i].model()
                    } else {
                        None
                    },
            ),
            dropped: self.dropped@,
        }
    }
}

impl<V> Pool<V> {
    /// No storage was set up beyond the pool's capacity.
    pub closed spec fn within_capacity(&self) -> bool {
        self.nodes.len() <= self.capacity
    }

    /// The pool's invariant: its nodes fit in the address space, and it
    /// has set up storage for none beyond them.
    pub open spec fn wf(&self) -> bool {
        self@.wf() && self.within_capacity()
    }

    /// A pool of `capacity` vacant nodes, the first at `origin`, each `stride`
    /// bytes after the one before. `None` if the stride is zero or the nodes
    /// would not fit in the address space.
    pub fn new(origin: usize, stride: usize, capacity: usize) -> (r: Option<Self>)
        ensures
            match r {
                Some(pool) => {
                    &&& pool.wf()
                    &&& pool@.origin == origin
                    &&& pool@.stride == stride
                    &&& pool@.nodes == Seq::new(capacity as nat, |i: int| None::<Seq<Option<V>>>)
                    &&& pool@.dropped == Seq::<V>::empty()
                },
                None => stride == 0 || origin + capacity * stride > usize::MAX,
            },
    {
        if stride == 0 {
            return None;
        }
        let span = match capacity.checked_mul(stride) {
            Some(span) => span,
            None => {
                return None;
            },
        };
        if origin.checked_add(span).is_none() {
            return None;
        }
        let pool = Pool {
            origin,
            stride,
            capacity,
            nodes: Vec::new(),
            dropped: Ghost(Seq::empty()),
        };
        Some(pool)
    }

    /// Number of nodes, active or vacant.
    pub fn capacity(&self) -> (r: usize)
        ensures
            r == self@.nodes.len(),
    {
        self.capacity
    }

    /// Distance in bytes from one node to the next, which is also the room
    /// that one node offers.
    pub fn stride(&self) -> (r: usize)
        ensures
            r == self@.stride,
    {
        self.stride
    }

    /// Whether `handle` names an active node.
    pub fn is_active(&self, handle: Handle) -> (r: bool)
        ensures
            r == self@.active(handle@),
    {
        handle.index < self.capacity && handle.index < self.nodes.len()
            && self.nodes[handle.index].active
    }

    fn find_vacant(&self) -> (r: Option<usize>)
        requires
            self.within_capacity(),
        ensures
            match r {
                Some(i) => {
                    &&& i <= self.nodes.len()
                    &&& i < self@.nodes.len()
                    &&& !self@.active(i as int)
                    &&& forall|k: int| 0 <= k < i ==> self@.active(k)
                },
                None => forall|k: int| 0 <= k < self@.nodes.len() ==> self@.active(k),
            },
    {
        let mut i: usize = 0;
        while i < self.nodes.len()
            invariant
                i <= self.nodes.len(),
                self.within_capacity(),
                forall|k: int| 0 <= k < i ==> self@.active(k),
            decreases self.nodes.len() - i,
        {
            if !self.nodes[i].active {
                return Some(i);
            }
            i = i + 1;
        }
        if i < self.capacity {
            Some(i)
        } else {
            None
        }
    }

    fn install(&mut self, i: usize, cells: Vec<Option<V>>)
        requires
            old(self).within_capacity(),
            i <= old(self).nodes.len(),
            i < old(self)@.nodes.len(),
        ensures
            final(self).within_capacity(),
            final(self)@ == old(self)@.set_node(i as int, Some(cells@)),
    {
        let node = Node { active: true, cells };
        if i < self.nodes.len() {
            self.nodes[i] = node;
        } else {
            self.nodes.push(node);
        }
    }

    /// Activates the first vacant node with a run of one cell that holds
    /// `value`. When every node is active the value comes back unchanged.
    pub fn activate(&mut self, value: V) -> (r: Result<Handle, V>)
        requires
            old(self).wf(),
        ensures
            final(self).wf(),
            match r {
                Ok(h) => {
                    &&& 0 <= h@ < old(self)@.nodes.len()
                    &&& !old(self)@.active(h@)
                    &&& forall|k: int| 0 <= k < h@ ==> old(self)@.active(k)
                    &&& final(self)@ == old(self)@.set_node(h@, Some(seq![Some(value)]))
                },
                Err(v) => {
                    &&& v == value
                    &&& final(self)@ == old(self)@
                    &&& forall|k: int| 0 <= k < old(self)@.nodes.len() ==> old(self)@.active(k)
                },
            },
    {
        match self.find_vacant() {
            None => Err(value),
            Some(i) => {
                let mut cells: Vec<Option<V>> = Vec::new();
                cells.push(Some(value));
                self.install(i, cells);
                Ok(Handle { index: i })
            },
        }
    }

    /// Activates the first vacant node with a run that holds `values` in
    /// order, every cell initialised. When every node is active the values
    /// come back unchanged.
    pub fn activate_array(&mut self, values: Vec<V>) -> (r: Result<Handle, Vec<V>>)
        requires
            old(self).wf(),
        ensures
            final(self).wf(),
            match r {
                Ok(h) => {
                    &&& 0 <= h@ < old(self)@.nodes.len()
                    &&& !old(self)@.active(h@)
                    &&& forall|k: int| 0 <= k < h@ ==> old(self)@.active(k)
                    &&& final(self)@ == old(self)@.set_node(
                        h@,
                        Some(PoolModel::<V>::filled(values@)),
                    )
                },
                Err(v) => {
                    &&& v@ == values@
                    &&& final(self)@ == old(self)@
                    &&& forall|k: int| 0 <= k < old(self)@.nodes.len() ==> old(self)@.active(k)
                },
            },
    {
        match self.find_vacant() {
            None => Err(values),
            Some(i) => {
                let ghost all = values@;
                let mut values = values;
                let mut rev: Vec<Option<V>> = Vec::new();
                while values.len() > 0
                    invariant
                        values@.len() + rev@.len() == all.len(),
                        values@ == all.subrange(0, values@.len() as int),
                        forall|k: int|
                            0 <= k < rev@.len() ==> #[trigger] rev@[k] == Some(
                                all[all.len() - 1 - k],
                            ),
                    decreases values.len(),
                {
                    let v = values.pop();
                    rev.push(v);
                }
                let mut cells: Vec<Option<V>> = Vec::new();
                while rev.len() > 0
                    invariant
                        cells@.len() + rev@.len() == all.len(),
                        forall|k: int|
                            0 <= k < rev@.len() ==> #[trigger] rev@[k] == Some(
                                all[all.len() - 1 - k],
                            ),
                        forall|k: int|
                            0 <= k < cells@.len() ==> #[trigger] cells@[k] == Some(all[k]),
                    decreases rev.len(),
                {
                    let c = rev.pop().unwrap();
                    cells.push(c);
                }
                assert(cells@ =~= PoolModel::<V>::filled(all));
                self.install(i, cells);
                Ok(Handle { index: i })
            },
        }
    }

    /// Activates the first vacant node with a run of `count` cells, none of
    /// them initialised. `None`, and no change, when every node is active.
    pub fn activate_uninit(&mut self, count: usize) -> (r: Option<Handle>)
        requires
            old(self).wf(),
        ensures
            final(self).wf(),
            match r {
                Some(h) => {
                    &&& 0 <= h@ < old(self)@.nodes.len()
                    &&& !old(self)@.active(h@)
                    &&& forall|k: int| 0 <= k < h@ ==> old(self)@.active(k)
                    &&& final(self)@ == old(self)@.set_node(
                        h@,
                        Some(PoolModel::<V>::blank(count as nat)),
                    )
                },
                None => {
                    &&& final(self)@ == old(self)@
                    &&& forall|k: int| 0 <= k < old(self)@.nodes.len() ==> old(self)@.active(k)
                },
            },
    {
        match self.find_vacant() {
            None => None,
            Some(i) => {
                let mut cells: Vec<Option<V>> = Vec::new();
                let mut j: usize = 0;
                while j < count
                    invariant
                        j <= count,
                        cells@.len() == j,
                        forall|k: int| 0 <= k < j ==> (#[trigger] cells@[k]) is None,
                    decreases count - j,
                {
                    cells.push(None);
                    j = j + 1;
                }
                assert(cells@ =~= PoolModel::<V>::blank(count as nat));
                self.install(i, cells);
                Some(Handle { index: i })
            },
        }
    }

    /// Resolves an active handle: the address of the node's first cell, and
    /// the number of cells in its run.
    pub fn resolve(&self, handle: Handle) -> (r: (usize, usize))
        requires
            self.wf(),
            self@.active(handle@),
        ensures
            r.0 == self@.addr(handle@),
            r.1 == self@.cells(handle@).len(),
            self@.is_node_addr(r.0 as int),
            self@.index_of(r.0 as int) == handle@,
    {
        proof {
            self@.lemma_addr_index(handle@);
        }
        let addr = self.origin + handle.index * self.stride;
        (addr, self.nodes[handle.index].cells.len())
    }

    /// Recovers the handle of the active node that resolves to `addr`.
    pub fn from_leaked_ptr(&self, addr: usize) -> (r: Handle)
        requires
            self.wf(),
            self@.is_node_addr(addr as int),
        ensures
            r@ == self@.index_of(addr as int),
            self@.active(r@),
            self@.addr(r@) == addr,
    {
        proof {
            self@.lemma_index_addr(addr as int);
        }
        Handle { index: (addr - self.origin) / self.stride }
    }

    /// The handle of the active node that resolves to `addr`, where there
    /// is one.
    pub fn lookup(&self, addr: usize) -> (r: Option<Handle>)
        requires
            self.wf(),
        ensures
            match r {
                Some(h) => self@.is_node_addr(addr as int) && h@ == self@.index_of(addr as int),
                None => !self@.is_node_addr(addr as int),
            },
    {
        if addr < self.origin {
            return None;
        }
        let d = addr - self.origin;
        if d % self.stride != 0 {
            return None;
        }
        let i = d / self.stride;
        if i < self.nodes.len() && self.nodes[i].active {
            Some(Handle { index: i })
        } else {
            None
        }
    }

    /// Whether `addr` is the address of an active node whose cell `j`
    /// exists and is initialised.
    pub fn is_init(&self, addr: usize, j: usize) -> (r: bool)
        requires
            self.wf(),
        ensures
            r == self@.holds(addr as int, j as int),
    {
        match self.lookup(addr) {
            Some(h) => {
                let i = h.index;
                j < self.nodes[i].cells.len() && self.nodes[i].cells[j].is_some()
            },
            None => false,
        }
    }

    fn locate(&self, addr: usize) -> (i: usize)
        requires
            self.wf(),
            self@.is_node_addr(addr as int),
        ensures
            i == self@.index_of(addr as int),
            i < self.nodes.len(),
            self.nodes[i as int].active,
            self.nodes[i as int].cells@ == self@.cells(i as int),
    {
        (addr - self.origin) / self.stride
    }

    /// Reads the initialised cell `j` of the run at `addr`.
    pub fn read(&self, addr: usize, j: usize) -> (r: &V)
        requires
            self.wf(),
            self@.holds(addr as int, j as int),
        ensures
            *r == self@.value(addr as int, j as int),
    {
        let i = self.locate(addr);
        self.nodes[i].cells[j].as_ref().unwrap()
    }

    /// Shared access to the first `len` cells of the run at `addr`, all of
    /// which must be initialised, in order.
    pub fn from_raw_parts(&self, addr: usize, len: usize) -> (r: Vec<&V>)
        requires
            self.wf(),
            self@.is_node_addr(addr as int),
            len <= self@.cells(self@.index_of(addr as int)).len(),
            forall|j: int| 0 <= j < len ==> self@.holds(addr as int, j),
        ensures
            r@.len() == len,
            forall|j: int| 0 <= j < len ==> *(#[trigger] r@[j]) == self@.value(addr as int, j),
    {
        let mut out: Vec<&V> = Vec::new();
        let mut j: usize = 0;
        while j < len
            invariant
                j <= len,
                out@.len() == j,
                self.wf(),
                forall|k: int| 0 <= k < len ==> self@.holds(addr as int, k),
                forall|k: int| 0 <= k < j ==> *(#[trigger] out@[k]) == self@.value(addr as int, k),
            decreases len - j,
        {
            out.push(self.read(addr, j));
            j = j + 1;
        }
        out
    }

    /// Borrows the initialised cell `j` of the run at `addr` for writing.
    /// Whatever the borrower leaves there is what the cell holds afterwards.
    pub fn load_mut(&mut self, addr: usize, j: usize) -> (r: &mut V)
        requires
            old(self).wf(),
            old(self)@.holds(addr as int, j as int),
        ensures
            *r == old(self)@.value(addr as int, j as int),
            final(self).wf(),
            final(self)@ == old(self)@.set_cell(
                old(self)@.index_of(addr as int),
                j as int,
                Some(*final(r)),
            ),
    {
        let i = self.locate(addr);
        self.nodes[i].cells[j].as_mut().unwrap()
    }

    /// Initialises cell `j` of the run at `addr` with `value`. The cell must
    /// not be initialised: nothing is read or destroyed to make room.
    pub fn write(&mut self, addr: usize, j: usize, value: V)
        requires
            old(self).wf(),
            old(self)@.has_cell(addr as int, j as int),
            !old(self)@.holds(addr as int, j as int),
        ensures
            final(self).wf(),
            final(self)@ == old(self)@.set_cell(
                old(self)@.index_of(addr as int),
                j as int,
                Some(value),
            ),
    {
        let i = self.locate(addr);
        self.nodes[i].cells[j] = Some(value);
    }

    /// Destroys the value in cell `j` of the run at `addr` and leaves the
    /// cell uninitialised. The value joins the history of destroyed values.
    pub fn drop_in_place(&mut self, addr: usize, j: usize)
        requires
            old(self).wf(),
            old(self)@.holds(addr as int, j as int),
        ensures
            final(self).wf(),
            final(self)@ == old(self)@.set_cell(
                old(self)@.index_of(addr as int),
                j as int,
                None,
            ).record_drop(old(self)@.value(addr as int, j as int)),
    {
        let i = self.locate(addr);
        let gone = self.nodes[i].cells[j].take();
        proof {
            self.dropped@ = self.dropped@.push(gone.unwrap());
        }
    }

    /// Deactivates a node and reclaims it. Nothing in it may still be
    /// initialised: the pool destroys no value on the way.
    pub fn deactivate(&mut self, handle: Handle)
        requires
            old(self).wf(),
            old(self)@.active(handle@),
            old(self)@.hollow(handle@),
        ensures
            final(self).wf(),
            final(self)@ == old(self)@.set_node(handle@, None),
    {
        self.nodes[handle.index] = Node { active: false, cells: Vec::new() };
    }
}

} // verus!
