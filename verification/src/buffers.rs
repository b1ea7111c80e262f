use vstd::prelude::*;
use crate::freelist::{Allocation, Allocator, allocate_post, free_post};

verus! {

/// Encodes both which sub-buffer and which suballocation slot within it.
/// Returned by [`VertexBuffers::allocate`]; passed to every other method so
/// callers never need to track the two levels separately.
#[derive(Debug, Clone, Copy, PartialEq, Eq, Structural)]
pub struct VertexAllocId {
    pub buffer: usize,
    pub slot: usize,
}

impl Default for VertexAllocId {
    /// Both halves set to `usize::MAX`, so an unallocated id is obvious rather
    /// than silently aliasing slot 0.
    fn default() -> (r: Self)
        ensures
            r.buffer == usize::MAX,
            r.slot == usize::MAX,
    {
        VertexAllocId { buffer: usize::MAX, slot: usize::MAX }
    }
}

/// Why a suballocation request failed.
#[derive(Debug, Clone, Copy, PartialEq, Eq, Structural)]
pub enum BufferError {
    /// No free block of the sub-buffer can hold the request.
    OutOfMemory,
}

/// A freelist over one buffer plus a slot table mapping slot numbers to the
/// byte ranges handed out. Slots of freed ranges are reused, most recently
/// freed first.
#[derive(Debug)]
pub struct SubBuffer {
    allocator: Allocator,
    alloc_list: Vec<Allocation>,
    free_ids: Vec<usize>,
}

impl SubBuffer {
    pub closed spec fn allocator(&self) -> Allocator {
        self.allocator
    }

    /// Slot number to range; freed slots hold the empty range at offset 0.
    pub closed spec fn slots(&self) -> Seq<Allocation> {
        self.alloc_list@
    }

    /// Slots available for reuse, the next one to be reused last.
    pub closed spec fn free_ids(&self) -> Seq<usize> {
        self.free_ids@
    }

    pub open spec fn wf(&self) -> bool {
        &&& self.allocator().wf()
        &&& forall|k: int|
            0 <= k < self.free_ids().len() ==> #[trigger] self.free_ids()[k] < self.slots().len()
    }

    /// A sub-buffer of `size` bytes whose ranges start at multiples of `alignment`.
    pub fn new(size: usize, alignment: usize) -> (r: Self)
        requires
            alignment >= 1,
            size + alignment - 1 <= usize::MAX,
        ensures
            r.wf(),
            r.allocator().blocks() == seq![Allocation { offset: 0, size }],
            r.allocator().alignment() == alignment,
            r.slots() == Seq::<Allocation>::empty(),
            r.free_ids() == Seq::<usize>::empty(),
    {
        SubBuffer { allocator: Allocator::new(size, alignment), alloc_list: Vec::new(), free_ids: Vec::new() }
    }

    /// Suballocates `size` bytes and returns the slot that records the range.
    pub fn allocate(&mut self, size: usize) -> (r: Option<usize>)
        requires
            old(self).wf(),
            size + old(self).allocator().alignment() - 1 <= usize::MAX,
        ensures
            final(self).wf(),
            final(self).allocator().alignment() == old(self).allocator().alignment(),
            r is None ==> {
                &&& allocate_post(
                    old(self).allocator().blocks(),
                    old(self).allocator().alignment(),
                    size,
                    None,
                    final(self).allocator().blocks(),
                )
                &&& final(self).slots() == old(self).slots()
                &&& final(self).free_ids() == old(self).free_ids()
            },
            r matches Some(slot) ==> {
                &&& allocate_post(
                    old(self).allocator().blocks(),
                    old(self).allocator().alignment(),
                    size,
                    Some(final(self).slots()[slot as int]),
                    final(self).allocator().blocks(),
                )
                &&& if old(self).free_ids().len() == 0 {
                    &&& slot == old(self).slots().len()
                    &&& final(self).slots() == old(self).slots().push(final(self).slots()[slot as int])
                    &&& final(self).free_ids() == old(self).free_ids()
                } else {
                    &&& slot == old(self).free_ids().last()
                    &&& final(self).slots() == old(self).slots().update(
                        slot as int,
                        final(self).slots()[slot as int],
                    )
                    &&& final(self).free_ids() == old(self).free_ids().drop_last()
                }
            },
    {
        match self.allocator.allocate(size) {
            Some(allocation) => {
                if self.free_ids.len() == 0 {
                    self.alloc_list.push(allocation);
                    Some(self.alloc_list.len() - 1)
                } else {
                    let slot = self.free_ids.pop().unwrap();
                    proof {
                        assert(old(self).free_ids()[old(self).free_ids().len() - 1] == slot);
                    }
                    self.alloc_list.set(slot, allocation);
                    Some(slot)
                }
            },
            None => None,
        }
    }

    /// Gives the range of `slot` back to the freelist and makes the slot
    /// available for reuse.
    pub fn free(&mut self, slot: usize)
        requires
            old(self).wf(),
            slot < old(self).slots().len(),
            old(self).allocator().can_free(old(self).slots()[slot as int]),
        ensures
            final(self).wf(),
            final(self).allocator().alignment() == old(self).allocator().alignment(),
            final(self).allocator().blocks() == free_post(
                old(self).allocator().blocks(),
                old(self).slots()[slot as int],
            ),
            final(self).free_ids() == old(self).free_ids().push(slot),
            final(self).slots() == old(self).slots().update(
                slot as int,
                Allocation { offset: 0, size: 0 },
            ),
    {
        self.allocator.free(self.alloc_list[slot]);
        self.free_ids.push(slot);
        self.alloc_list.set(slot, Allocation { offset: 0, size: 0 });
        proof {
            assert forall|k: int| 0 <= k < self.free_ids().len() implies #[trigger] self.free_ids()[k]
                < self.slots().len() by {
                if k < old(self).free_ids().len() {
                    assert(self.free_ids()[k] == old(self).free_ids()[k]);
                }
            }
        }
    }

    /// Whether `slot` may be freed: it exists and no free block overlaps its range.
    pub fn can_free(&self, slot: usize) -> (r: bool)
        requires
            self.wf(),
        ensures
            r == (slot < self.slots().len() && self.allocator().can_free(self.slots()[slot as int])),
    {
        slot < self.alloc_list.len() && self.allocator.is_releasable(self.alloc_list[slot])
    }

    pub fn alloc_info(&self, slot: usize) -> (r: Allocation)
        requires
            slot < self.slots().len(),
        ensures
            r == self.slots()[slot as int],
    {
        self.alloc_list[slot]
    }
}


/// A set of sub-buffers, each with its own freelist and slot table, as behind
/// one shared device allocation.
#[derive(Debug)]
pub struct VertexBuffers {
    buffers: Vec<SubBuffer>,
}

impl VertexBuffers {
    pub closed spec fn subs(&self) -> Seq<SubBuffer> {
        self.buffers@
    }

    pub open spec fn wf(&self) -> bool {
        forall|b: int| 0 <= b < self.subs().len() ==> (#[trigger] self.subs()[b]).wf()
    }

    /// One sub-buffer per `(size, alignment)` pair, in order.
    pub fn new(layout: &Vec<(usize, usize)>) -> (r: Self)
        requires
            forall|k: int|
                0 <= k < layout.len() ==> {
                    &&& (#[trigger] layout[k]).1 >= 1
                    &&& layout[k].0 + layout[k].1 - 1 <= usize::MAX
                },
        ensures
            r.wf(),
            r.subs().len() == layout.len(),
            forall|k: int|
                0 <= k < layout.len() ==> {
                    &&& (#[trigger] r.subs()[k]).allocator().blocks() == seq![
                        Allocation { offset: 0, size: layout[k].0 },
                    ]
                    &&& r.subs()[k].allocator().alignment() == layout[k].1
                    &&& r.subs()[k].slots().len() == 0
                    &&& r.subs()[k].free_ids().len() == 0
                },
    {
        let mut buffers: Vec<SubBuffer> = Vec::new();
        let mut i: usize = 0;
        while i < layout.len()
            invariant
                0 <= i <= layout.len(),
                buffers.len() == i,
                forall|k: int|
                    0 <= k < layout.len() ==> {
                        &&& (#[trigger] layout[k]).1 >= 1
                        &&& layout[k].0 + layout[k].1 - 1 <= usize::MAX
                    },
                forall|k: int|
                    0 <= k < i ==> {
                        &&& (#[trigger] buffers@[k]).wf()
                        &&& buffers@[k].allocator().blocks() == seq![
                            Allocation { offset: 0, size: layout[k].0 },
                        ]
                        &&& buffers@[k].allocator().alignment() == layout[k].1
                        &&& buffers@[k].slots().len() == 0
                        &&& buffers@[k].free_ids().len() == 0
                    },
            decreases layout.len() - i,
        {
            let (size, alignment) = layout[i];
            buffers.push(SubBuffer::new(size, alignment));
            i += 1;
        }
        VertexBuffers { buffers }
    }

    /// Suballocates `size` bytes from sub-buffer `buffer` and returns a [`VertexAllocId`].
    pub fn allocate(&mut self, buffer: usize, size: usize) -> (r: Result<VertexAllocId, BufferError>)
        requires
            old(self).wf(),
            buffer < old(self).subs().len(),
            size + old(self).subs()[buffer as int].allocator().alignment() - 1 <= usize::MAX,
        ensures
            final(self).wf(),
            final(self).subs().len() == old(self).subs().len(),
            forall|b: int|
                0 <= b < old(self).subs().len() && b != buffer ==> #[trigger] final(self).subs()[b]
                    == old(self).subs()[b],
            final(self).subs()[buffer as int].allocator().alignment() == old(
                self,
            ).subs()[buffer as int].allocator().alignment(),
            r is Err ==> {
                &&& r == Err::<VertexAllocId, BufferError>(BufferError::OutOfMemory)
                &&& allocate_post(
                    old(self).subs()[buffer as int].allocator().blocks(),
                    old(self).subs()[buffer as int].allocator().alignment(),
                    size,
                    None,
                    final(self).subs()[buffer as int].allocator().blocks(),
                )
                &&& final(self).subs()[buffer as int].slots() == old(self).subs()[buffer as int].slots()
            },
            r matches Ok(id) ==> {
                &&& id.buffer == buffer
                &&& id.slot < final(self).subs()[buffer as int].slots().len()
                &&& final(self).subs()[buffer as int].slots().len() == old(self).subs()[buffer as int].slots().len() + (
                if old(self).subs()[buffer as int].free_ids().len() == 0 {
                    1int
                } else {
                    0int
                })
                &&& (old(self).subs()[buffer as int].free_ids().len() == 0 <==> id.slot == old(
                    self,
                ).subs()[buffer as int].slots().len())
                &&& allocate_post(
                    old(self).subs()[buffer as int].allocator().blocks(),
                    old(self).subs()[buffer as int].allocator().alignment(),
                    size,
                    Some(final(self).subs()[buffer as int].slots()[id.slot as int]),
                    final(self).subs()[buffer as int].allocator().blocks(),
                )
            },
    {
        let mut sub = self.buffers.remove(buffer);
        let r = sub.allocate(size);
        self.buffers.insert(buffer, sub);
        proof {
            assert forall|b: int|
                0 <= b < old(self).subs().len() && b != buffer implies #[trigger] self.subs()[b]
                == old(self).subs()[b] by {
                if b < buffer {
                    assert(self.buffers@[b] == old(self).buffers@[b]);
                } else {
                    assert(self.buffers@[b] == old(self).buffers@[b]);
                }
            }
            assert(self.subs()[buffer as int] == sub);
        }
        match r {
            Some(slot) => Ok(VertexAllocId { buffer, slot }),
            None => Err(BufferError::OutOfMemory),
        }
    }

    /// Gives the range recorded under `id` back to its sub-buffer.
    pub fn free(&mut self, id: VertexAllocId)
        requires
            old(self).wf(),
            id.buffer < old(self).subs().len(),
            id.slot < old(self).subs()[id.buffer as int].slots().len(),
            old(self).subs()[id.buffer as int].allocator().can_free(
                old(self).subs()[id.buffer as int].slots()[id.slot as int],
            ),
        ensures
            final(self).wf(),
            final(self).subs().len() == old(self).subs().len(),
            forall|b: int|
                0 <= b < old(self).subs().len() && b != id.buffer ==> #[trigger] final(self).subs()[b]
                    == old(self).subs()[b],
            final(self).subs()[id.buffer as int].allocator().blocks() == free_post(
                old(self).subs()[id.buffer as int].allocator().blocks(),
                old(self).subs()[id.buffer as int].slots()[id.slot as int],
            ),
            final(self).subs()[id.buffer as int].free_ids() == old(self).subs()[id.buffer as int].free_ids().push(
                id.slot,
            ),
            final(self).subs()[id.buffer as int].slots() == old(self).subs()[id.buffer as int].slots().update(
                id.slot as int,
                Allocation { offset: 0, size: 0 },
            ),
    {
        let mut sub = self.buffers.remove(id.buffer);
        sub.free(id.slot);
        self.buffers.insert(id.buffer, sub);
        proof {
            assert forall|b: int|
                0 <= b < old(self).subs().len() && b != id.buffer implies #[trigger] self.subs()[b]
                == old(self).subs()[b] by {
                assert(self.buffers@[b] == old(self).buffers@[b]);
            }
            assert(self.subs()[id.buffer as int] == sub);
        }
    }

    /// Whether `id` names a slot whose range may be freed.
    pub fn can_free(&self, id: VertexAllocId) -> (r: bool)
        requires
            self.wf(),
        ensures
            r == (id.buffer < self.subs().len() && id.slot < self.subs()[id.buffer as int].slots().len()
                && self.subs()[id.buffer as int].allocator().can_free(
                self.subs()[id.buffer as int].slots()[id.slot as int],
            )),
    {
        if id.buffer < self.buffers.len() {
            proof {
                assert(self.subs()[id.buffer as int].wf());
            }
            self.buffers[id.buffer].can_free(id.slot)
        } else {
            false
        }
    }

    pub fn alloc_info(&self, id: VertexAllocId) -> (r: Allocation)
        requires
            id.buffer < self.subs().len(),
            id.slot < self.subs()[id.buffer as int].slots().len(),
        ensures
            r == self.subs()[id.buffer as int].slots()[id.slot as int],
    {
        self.buffers[id.buffer].alloc_info(id.slot)
    }
}


/// Memory requirements of one buffer: its size in bytes, the alignment its
/// binding offset needs, and the memory types it may live in (one bit each).
#[derive(Debug, Clone, Copy, PartialEq, Eq, Structural)]
pub struct MemoryRequirement {
    pub size: u64,
    pub alignment: u64,
    pub type_bits: u32,
}

/// Where several buffers are bound inside one shared allocation.
#[derive(Debug)]
pub struct SharedLayout {
    /// Binding offset of each buffer, in order.
    pub offsets: Vec<u64>,
    /// Bytes the shared allocation needs.
    pub total_size: u64,
    /// The largest alignment of any buffer, 1 when there are none.
    pub alignment: u64,
    /// Memory types every buffer may live in.
    pub type_bits: u32,
}

pub open spec fn align_up_u64(x: u64, align: u64) -> u64 {
    ((x + align - 1) as u64) & !((align - 1) as u64)
}

proof fn lemma_mask_round_up_u64(x: u64, m: u64)
    by (bit_vector)
    requires
        x <= ((x + m) as u64),
    ensures
        x <= ((x + m) as u64) & !m,
        ((x + m) as u64) & !m <= x + m,
{
}

/// Offset at which the `n`-th buffer starts: the end of the previous one,
/// rounded up to the buffer's alignment.
pub open spec fn layout_offset(reqs: Seq<MemoryRequirement>, n: nat) -> int
    decreases n, 1int,
{
    align_up_u64(layout_end(reqs, n) as u64, reqs[n as int].alignment) as int
}

/// Where the first `n` buffers end once laid out one after another.
pub open spec fn layout_end(reqs: Seq<MemoryRequirement>, n: nat) -> int
    decreases n, 0int,
{
    if n == 0 {
        0
    } else {
        layout_offset(reqs, (n - 1) as nat) + reqs[n - 1].size
    }
}

/// The layout can be computed in 64-bit arithmetic.
pub open spec fn layout_fits(reqs: Seq<MemoryRequirement>) -> bool {
    forall|i: int|
        0 <= i < reqs.len() ==> {
            &&& (#[trigger] reqs[i]).alignment >= 1
            &&& layout_end(reqs, i as nat) + reqs[i].alignment - 1 <= u64::MAX
            &&& layout_offset(reqs, i as nat) + reqs[i].size <= u64::MAX
        }
}

pub open spec fn max_alignment(reqs: Seq<MemoryRequirement>, n: nat) -> u64
    decreases n,
{
    if n == 0 {
        1
    } else if n == 1 {
        reqs[0].alignment
    } else if reqs[n - 1].alignment > max_alignment(reqs, (n - 1) as nat) {
        reqs[n - 1].alignment
    } else {
        max_alignment(reqs, (n - 1) as nat)
    }
}

pub open spec fn common_type_bits(reqs: Seq<MemoryRequirement>, n: nat) -> u32
    decreases n,
{
    if n == 0 {
        !0u32
    } else {
        common_type_bits(reqs, (n - 1) as nat) & reqs[n - 1].type_bits
    }
}

/// One bit of a `u32` mask.
proof fn lemma_bit_of_and(a: u32, c: u32, b: u32)
    requires
        b < 32,
    ensures
        (a & c) & (1u32 << b) != 0 <==> (a & (1u32 << b) != 0 && c & (1u32 << b) != 0),
        !0u32 & (1u32 << b) != 0,
{
    assert((a & c) & (1u32 << b) != 0 <==> (a & (1u32 << b) != 0 && c & (1u32 << b) != 0)) by (bit_vector)
        requires
            b < 32,
    ;
    assert(!0u32 & (1u32 << b) != 0) by (bit_vector)
        requires
            b < 32,
    ;
}

/// The memory types the first `n` buffers can share are those every one of
/// them allows: memory type `b` is in the common mask exactly when it is in
/// each buffer's mask.
pub proof fn lemma_common_type_bits(reqs: Seq<MemoryRequirement>, n: nat, b: u32)
    requires
        n <= reqs.len(),
        b < 32,
    ensures
        common_type_bits(reqs, n) & (1u32 << b) != 0 <==> forall|i: int|
            0 <= i < n ==> (#[trigger] reqs[i].type_bits) & (1u32 << b) != 0,
    decreases n,
{
    lemma_bit_of_and(0, 0, b);
    if n > 0 {
        lemma_common_type_bits(reqs, (n - 1) as nat, b);
        lemma_bit_of_and(common_type_bits(reqs, (n - 1) as nat), reqs[n - 1].type_bits, b);
        assert((forall|i: int| 0 <= i < n ==> (#[trigger] reqs[i].type_bits) & (1u32 << b) != 0) <==> ((forall|
            i: int,
        | 0 <= i < n - 1 ==> (#[trigger] reqs[i].type_bits) & (1u32 << b) != 0) && reqs[n - 1].type_bits & (1u32
            << b) != 0));
    }
}

/// Lays buffers out one after another inside a single allocation, each at
/// the next offset its alignment allows.
pub fn shared_layout(reqs: &Vec<MemoryRequirement>) -> (r: SharedLayout)
    requires
        layout_fits(reqs@),
    ensures
        r.offsets.len() == reqs.len(),
        forall|i: int| 0 <= i < reqs.len() ==> #[trigger] r.offsets[i] == layout_offset(reqs@, i as nat),
        r.total_size == layout_end(reqs@, reqs.len() as nat),
        r.alignment == max_alignment(reqs@, reqs.len() as nat),
        r.type_bits == common_type_bits(reqs@, reqs.len() as nat),
        forall|b: u32| b < 32 ==> (#[trigger] (r.type_bits & (1u32 << b)) != 0 <==> forall|i: int|
            0 <= i < reqs.len() ==> (#[trigger] reqs@[i].type_bits) & (1u32 << b) != 0),
{
    proof {
        assert forall|b: u32| b < 32 implies (#[trigger] (common_type_bits(reqs@, reqs.len() as nat) & (1u32
            << b)) != 0 <==> forall|i: int| 0 <= i < reqs.len() ==> (#[trigger] reqs@[i].type_bits) & (1u32 << b)
            != 0) by {
            lemma_common_type_bits(reqs@, reqs.len() as nat, b);
        }
    }
    let mut offsets: Vec<u64> = Vec::with_capacity(reqs.len());
    let mut cursor: u64 = 0;
    let mut alignment: u64 = 1;
    let mut type_bits: u32 = !0u32;
    let mut i: usize = 0;
    while i < reqs.len()
        invariant
            0 <= i <= reqs.len(),
            layout_fits(reqs@),
            offsets.len() == i,
            forall|k: int| 0 <= k < i ==> #[trigger] offsets[k] == layout_offset(reqs@, k as nat),
            cursor == layout_end(reqs@, i as nat),
            alignment == max_alignment(reqs@, i as nat),
            type_bits == common_type_bits(reqs@, i as nat),
        decreases reqs.len() - i,
    {
        let req = reqs[i];
        assert(req.alignment >= 1 && layout_end(reqs@, i as nat) + req.alignment - 1 <= u64::MAX);
        proof {
            lemma_mask_round_up_u64(cursor, (req.alignment - 1) as u64);
        }
        let offset = (cursor + (req.alignment - 1)) & !(req.alignment - 1);
        assert(offset == layout_offset(reqs@, i as nat));
        offsets.push(offset);
        cursor = offset + req.size;
        if i == 0 || req.alignment > alignment {
            alignment = req.alignment;
        }
        type_bits = type_bits & req.type_bits;
        i += 1;
    }
    SharedLayout { offsets, total_size: cursor, alignment, type_bits }
}

/// Memory type `i` is allowed by `type_bits` and has every flag of `properties`.
pub open spec fn suitable_type(type_flags: Seq<u32>, type_bits: u32, properties: u32, i: int) -> bool {
    &&& type_bits & (1u32 << (i as u32)) != 0
    &&& type_flags[i] & properties == properties
}

/// Returns the first memory type index whose type bits overlap `type_bits`
/// and whose flags contain all of `properties`.
pub fn memory_type_index(type_flags: &Vec<u32>, type_bits: u32, properties: u32) -> (r: Option<u32>)
    requires
        type_flags.len() <= 32,
    ensures
        r is None ==> forall|i: int| 0 <= i < type_flags.len() ==> !suitable_type(type_flags@, type_bits, properties, i),
        r matches Some(k) ==> {
            &&& k < type_flags.len()
            &&& suitable_type(type_flags@, type_bits, properties, k as int)
            &&& forall|i: int| 0 <= i < k ==> !suitable_type(type_flags@, type_bits, properties, i)
        },
{
    let count = type_flags.len() as u32;
    let mut i: u32 = 0;
    while i < count
        invariant
            count == type_flags.len(),
            count <= 32,
            0 <= i <= count,
            forall|j: int| 0 <= j < i ==> !suitable_type(type_flags@, type_bits, properties, j),
        decreases count - i,
    {
        if type_bits & (1u32 << i) != 0 && type_flags[i as usize] & properties == properties {
            return Some(i);
        }
        i += 1;
    }
    None
}

/// Which index sub-buffer and which slot in it.
#[derive(Debug, Clone, Copy, PartialEq, Eq, Structural)]
pub struct IndexAllocId {
    pub buffer: usize,
    pub slot: usize,
}

impl Default for IndexAllocId {
    /// Both halves set to `usize::MAX`, so an unallocated id is obvious.
    fn default() -> (r: Self)
        ensures
            r.buffer == usize::MAX,
            r.slot == usize::MAX,
    {
        IndexAllocId { buffer: usize::MAX, slot: usize::MAX }
    }
}

/// Bytes of one index.
pub const INDEX_SIZE: usize = 2;

/// Index sub-buffers: byte ranges handed out as in vertex sub-buffers, and
/// the number of indices each slot holds.
#[derive(Debug)]
pub struct IndexBuffer {
    ranges: VertexBuffers,
    counts: Vec<Vec<usize>>,
}

impl IndexBuffer {
    pub closed spec fn subs(&self) -> Seq<SubBuffer> {
        self.ranges.subs()
    }

    /// Indices held by each slot of each sub-buffer; freed slots hold 0.
    pub closed spec fn counts(&self) -> Seq<Seq<usize>> {
        self.counts@.map_values(|c: Vec<usize>| c@)
    }

    pub closed spec fn wf(&self) -> bool {
        &&& self.ranges.wf()
        &&& self.counts@.len() == self.ranges.subs().len()
        &&& forall|b: int| 0 <= b < self.counts@.len() ==> (#[trigger] self.counts@[b])@.len() == self.ranges.subs()[b].slots().len()
    }

    /// One sub-buffer per `(index count, alignment)` pair, in order.
    pub fn new(layout: &Vec<(usize, usize)>) -> (r: Self)
        requires
            forall|k: int|
                0 <= k < layout.len() ==> {
                    &&& (#[trigger] layout[k]).1 >= 1
                    &&& layout[k].0 * 2 + layout[k].1 - 1 <= usize::MAX
                },
        ensures
            r.wf(),
            r.subs().len() == layout.len(),
            forall|k: int|
                0 <= k < layout.len() ==> {
                    &&& (#[trigger] r.subs()[k]).allocator().blocks() == seq![
                        Allocation { offset: 0, size: (layout[k].0 * 2) as usize },
                    ]
                    &&& r.subs()[k].allocator().alignment() == layout[k].1
                    &&& r.counts()[k].len() == 0
                },
    {
        let mut bytes: Vec<(usize, usize)> = Vec::new();
        let mut counts: Vec<Vec<usize>> = Vec::new();
        let mut i: usize = 0;
        while i < layout.len()
            invariant
                0 <= i <= layout.len(),
                bytes.len() == i,
                counts.len() == i,
                forall|k: int|
                    0 <= k < layout.len() ==> {
                        &&& (#[trigger] layout[k]).1 >= 1
                        &&& layout[k].0 * 2 + layout[k].1 - 1 <= usize::MAX
                    },
                forall|k: int| 0 <= k < i ==> #[trigger] bytes@[k] == ((layout[k].0 * 2) as usize, layout[k].1),
                forall|k: int| 0 <= k < i ==> (#[trigger] counts@[k])@.len() == 0,
            decreases layout.len() - i,
        {
            let (count, alignment) = layout[i];
            bytes.push((count * INDEX_SIZE, alignment));
            counts.push(Vec::new());
            i += 1;
        }
        let ranges = VertexBuffers::new(&bytes);
        let r = IndexBuffer { ranges, counts };
        proof {
            assert forall|k: int| 0 <= k < layout.len() implies (#[trigger] r.counts()[k]).len() == 0 by {
                assert(r.counts()[k] == counts@[k]@);
            }
        }
        r
    }

    /// Suballocates `count` indices from sub-buffer `buffer`.
    pub fn allocate(&mut self, buffer: usize, count: usize) -> (r: Result<IndexAllocId, BufferError>)
        requires
            old(self).wf(),
            buffer < old(self).subs().len(),
            count * 2 + old(self).subs()[buffer as int].allocator().alignment() - 1 <= usize::MAX,
        ensures
            final(self).wf(),
            final(self).subs().len() == old(self).subs().len(),
            forall|b: int|
                0 <= b < old(self).subs().len() && b != buffer ==> #[trigger] final(self).subs()[b]
                    == old(self).subs()[b] && final(self).counts()[b] == old(self).counts()[b],
            r is Err ==> {
                &&& r == Err::<IndexAllocId, BufferError>(BufferError::OutOfMemory)
                &&& allocate_post(
                    old(self).subs()[buffer as int].allocator().blocks(),
                    old(self).subs()[buffer as int].allocator().alignment(),
                    (count * 2) as usize,
                    None,
                    final(self).subs()[buffer as int].allocator().blocks(),
                )
                &&& final(self).counts()[buffer as int] == old(self).counts()[buffer as int]
            },
            r matches Ok(id) ==> {
                &&& id.buffer == buffer
                &&& allocate_post(
                    old(self).subs()[buffer as int].allocator().blocks(),
                    old(self).subs()[buffer as int].allocator().alignment(),
                    (count * 2) as usize,
                    Some(final(self).subs()[buffer as int].slots()[id.slot as int]),
                    final(self).subs()[buffer as int].allocator().blocks(),
                )
                &&& id.slot < final(self).counts()[buffer as int].len()
                &&& final(self).counts()[buffer as int][id.slot as int] == count
            },
    {
        let r = self.ranges.allocate(buffer, count * INDEX_SIZE);
        let ghost c0 = self.counts();
        match r {
            Ok(id) => {
                proof {
                    assert(self.counts@[buffer as int]@.len() == old(self).ranges.subs()[buffer as int].slots().len());
                }
                if id.slot == self.counts[buffer].len() {
                    self.counts[buffer].push(count);
                } else {
                    self.counts[buffer].set(id.slot, count);
                }
                proof {
                    assert forall|b: int| 0 <= b < self.counts@.len() implies (#[trigger] self.counts@[b])@.len()
                        == self.ranges.subs()[b].slots().len() by {
                        if b != buffer {
                            assert(self.counts@[b] == old(self).counts@[b]);
                        }
                    }
                    assert forall|b: int| 0 <= b < old(self).subs().len() && b != buffer implies #[trigger] self.subs()[b]
                        == old(self).subs()[b] && self.counts()[b] == old(self).counts()[b] by {
                        assert(self.counts@[b] == old(self).counts@[b]);
                    }
                }
                Ok(IndexAllocId { buffer, slot: id.slot })
            },
            Err(e) => {
                proof {
                    assert(self.counts() =~= c0);
                }
                Err(e)
            },
        }
    }

    /// Gives the range recorded under `id` back to its sub-buffer.
    pub fn free(&mut self, id: IndexAllocId)
        requires
            old(self).wf(),
            id.buffer < old(self).subs().len(),
            id.slot < old(self).subs()[id.buffer as int].slots().len(),
            old(self).subs()[id.buffer as int].allocator().can_free(
                old(self).subs()[id.buffer as int].slots()[id.slot as int],
            ),
        ensures
            final(self).wf(),
            final(self).subs().len() == old(self).subs().len(),
            forall|b: int|
                0 <= b < old(self).subs().len() && b != id.buffer ==> #[trigger] final(self).subs()[b]
                    == old(self).subs()[b],
            final(self).subs()[id.buffer as int].allocator().blocks() == free_post(
                old(self).subs()[id.buffer as int].allocator().blocks(),
                old(self).subs()[id.buffer as int].slots()[id.slot as int],
            ),
            final(self).subs()[id.buffer as int].free_ids() == old(self).subs()[id.buffer as int].free_ids().push(
                id.slot,
            ),
            final(self).counts() == old(self).counts().update(
                id.buffer as int,
                old(self).counts()[id.buffer as int].update(id.slot as int, 0),
            ),
    {
        self.ranges.free(VertexAllocId { buffer: id.buffer, slot: id.slot });
        proof {
            assert(self.counts@[id.buffer as int]@.len() == old(self).ranges.subs()[id.buffer as int].slots().len());
        }
        self.counts[id.buffer].set(id.slot, 0);
        proof {
            assert forall|b: int| 0 <= b < self.counts@.len() implies (#[trigger] self.counts@[b])@.len()
                == self.ranges.subs()[b].slots().len() by {
                if b != id.buffer {
                    assert(self.counts@[b] == old(self).counts@[b]);
                }
            }
            assert(self.counts() =~= old(self).counts().update(
                id.buffer as int,
                old(self).counts()[id.buffer as int].update(id.slot as int, 0),
            ));
        }
    }

    /// The byte range recorded under `id`.
    pub fn alloc_info(&self, id: IndexAllocId) -> (r: Allocation)
        requires
            id.buffer < self.subs().len(),
            id.slot < self.subs()[id.buffer as int].slots().len(),
        ensures
            r == self.subs()[id.buffer as int].slots()[id.slot as int],
    {
        self.ranges.alloc_info(VertexAllocId { buffer: id.buffer, slot: id.slot })
    }

    /// The number of indices recorded under `id`.
    pub fn count(&self, id: IndexAllocId) -> (r: usize)
        requires
            self.wf(),
            id.buffer < self.subs().len(),
            id.slot < self.subs()[id.buffer as int].slots().len(),
        ensures
            r == self.counts()[id.buffer as int][id.slot as int],
    {
        proof {
            assert(self.counts@[id.buffer as int]@.len() == self.ranges.subs()[id.buffer as int].slots().len());
        }
        self.counts[id.buffer][id.slot]
    }

    /// Whether `id` names a slot whose range may be freed.
    pub fn can_free(&self, id: IndexAllocId) -> (r: bool)
        requires
            self.wf(),
        ensures
            r == (id.buffer < self.subs().len() && id.slot < self.subs()[id.buffer as int].slots().len()
                && self.subs()[id.buffer as int].allocator().can_free(
                self.subs()[id.buffer as int].slots()[id.slot as int],
            )),
    {
        self.ranges.can_free(VertexAllocId { buffer: id.buffer, slot: id.slot })
    }
}

} // verus!
