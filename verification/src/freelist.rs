use vstd::prelude::*;
use vstd::arithmetic::power2::{pow2, lemma_pow2_pos};
use vstd::bits::{low_bits_mask, lemma_usize_low_bits_mask_is_mod};

verus! {

/// A byte range `[offset, offset + size)`, either handed out by an [`Allocator`]
/// or kept in its list of free blocks.
#[derive(Copy, Clone, Debug, PartialEq, Eq, Structural)]
pub struct Allocation {
    pub offset: usize,
    pub size: usize,
}

impl Allocation {
    pub open spec fn end(self) -> int {
        self.offset + self.size
    }

    /// The set of byte addresses covered by this range.
    pub open spec fn region(self) -> Set<int> {
        Set::new(|x: int| self.offset <= x < self.end())
    }
}

/// Rounds `x` up with the mask `align - 1`; for a power-of-two `align` this is
/// the smallest multiple of `align` that is at least `x`
/// (see [`lemma_align_up_pow2`]).
pub open spec fn align_up_spec(x: usize, align: usize) -> usize {
    ((x + align - 1) as usize) & !((align - 1) as usize)
}

pub open spec fn is_pow2(a: usize) -> bool {
    exists|k: nat| k < usize::BITS && a == pow2(k)
}

proof fn lemma_mask_round_up(x: usize, m: usize)
    by (bit_vector)
    requires
        x <= ((x + m) as usize),
    ensures
        x <= ((x + m) as usize) & !m,
        ((x + m) as usize) & !m <= x + m,
        (((x + m) as usize) & !m) & m == 0,
{
}

/// `align_up_spec(x, align)` lies in `[x, x + align - 1]`.
pub proof fn lemma_align_up_bounds(x: usize, align: usize)
    requires
        align >= 1,
        x + align - 1 <= usize::MAX,
    ensures
        x <= align_up_spec(x, align) <= x + align - 1,
{
    assert(x <= ((x + (align - 1) as usize) as usize));
    lemma_mask_round_up(x, (align - 1) as usize);
}

/// For a power-of-two alignment, rounding up gives a multiple of the
/// alignment that is less than `align` past `x`.
pub proof fn lemma_align_up_pow2(x: usize, align: usize)
    requires
        is_pow2(align),
        x + align - 1 <= usize::MAX,
    ensures
        align_up_spec(x, align) % align == 0,
        x <= align_up_spec(x, align) < x + align,
{
    let k = choose|k: nat| k < usize::BITS && align == pow2(k);
    lemma_pow2_pos(k);
    assert(x <= ((x + (align - 1) as usize) as usize));
    lemma_mask_round_up(x, (align - 1) as usize);
    assert(low_bits_mask(k) as usize == (align - 1) as usize);
    lemma_usize_low_bits_mask_is_mod(align_up_spec(x, align), k);
}

fn align_up(x: usize, align: usize) -> (r: usize)
    requires
        align >= 1,
        x + align - 1 <= usize::MAX,
    ensures
        r == align_up_spec(x, align),
        x <= r <= x + align - 1,
{
    proof {
        lemma_align_up_bounds(x, align);
    }
    (x + (align - 1)) & !(align - 1)
}


/// Every block ends at or before the next one starts: the free list is sorted
/// by offset and its blocks do not overlap.
pub open spec fn chained(l: Seq<Allocation>) -> bool {
    forall|i: int| 0 <= i < l.len() - 1 ==> #[trigger] l[i].end() <= l[i + 1].offset
}

/// Every block ends at or before `limit`.
pub open spec fn bounded(l: Seq<Allocation>, limit: int) -> bool {
    forall|i: int| 0 <= i < l.len() ==> #[trigger] l[i].end() <= limit
}

/// Bytes skipped at the start of block `b` to reach an aligned offset.
pub open spec fn padding(b: Allocation, align: usize) -> int {
    align_up_spec(b.offset, align) - b.offset
}

/// Block `b` can hold `size` bytes at its first aligned offset.
pub open spec fn fits(b: Allocation, align: usize, size: usize) -> bool {
    b.size >= padding(b, align) + size
}

/// `i` is the first block of `l` that can hold `size` bytes.
pub open spec fn is_first_fit(l: Seq<Allocation>, align: usize, size: usize, i: int) -> bool {
    &&& 0 <= i < l.len()
    &&& fits(l[i], align, size)
    &&& forall|j: int| 0 <= j < i ==> !fits(#[trigger] l[j], align, size)
}

/// The allocation carved out of block `b` for a request of `size` bytes.
pub open spec fn placed(b: Allocation, align: usize, size: usize) -> Allocation {
    Allocation { offset: align_up_spec(b.offset, align), size }
}

/// What remains free of block `b` once `placed(b, align, size)` is taken:
/// the padding before it and the tail after it, each only when non-empty.
pub open spec fn split_block(b: Allocation, align: usize, size: usize) -> Seq<Allocation> {
    let start = align_up_spec(b.offset, align);
    let pad = padding(b, align);
    let rem = b.size - (pad + size);
    let head = if pad > 0 {
        seq![Allocation { offset: b.offset, size: pad as usize }]
    } else {
        Seq::<Allocation>::empty()
    };
    let tail = if rem > 0 {
        seq![Allocation { offset: (start + size) as usize, size: rem as usize }]
    } else {
        Seq::<Allocation>::empty()
    };
    head + tail
}

/// The free list after block `i` has been split by an allocation.
pub open spec fn carve(l: Seq<Allocation>, i: int, align: usize, size: usize) -> Seq<Allocation> {
    l.take(i) + split_block(l[i], align, size) + l.skip(i + 1)
}

/// Index of the first block whose offset is greater than `offset`
/// (the length of `l` when there is none).
pub open spec fn insert_pos(l: Seq<Allocation>, offset: usize) -> int
    decreases l.len(),
{
    if l.len() == 0 {
        0
    } else if l[0].offset > offset {
        0
    } else {
        1 + insert_pos(l.drop_first(), offset)
    }
}

/// Merges `cur` with the following blocks while each one starts exactly
/// where the merged block ends, then continues with the rest.
pub open spec fn coalesce_from(cur: Allocation, rest: Seq<Allocation>) -> Seq<Allocation>
    decreases rest.len(),
{
    if rest.len() == 0 {
        seq![cur]
    } else if cur.end() == rest[0].offset {
        coalesce_from(
            Allocation { offset: cur.offset, size: (cur.size + rest[0].size) as usize },
            rest.drop_first(),
        )
    } else {
        seq![cur] + coalesce_from(rest[0], rest.drop_first())
    }
}

/// The free list with every run of touching blocks merged into one block.
pub open spec fn coalesce_spec(l: Seq<Allocation>) -> Seq<Allocation> {
    if l.len() == 0 {
        l
    } else {
        coalesce_from(l[0], l.drop_first())
    }
}

/// What first-fit allocation of `size` bytes from the free list `l` returns
/// (`r`) and leaves (`n`): nothing, and `l` unchanged, when no block fits;
/// otherwise the aligned start of the first block that fits, with that block
/// replaced by what remains of it.
pub open spec fn allocate_post(
    l: Seq<Allocation>,
    align: usize,
    size: usize,
    r: Option<Allocation>,
    n: Seq<Allocation>,
) -> bool {
    match r {
        None => {
            &&& forall|i: int| 0 <= i < l.len() ==> !fits(#[trigger] l[i], align, size)
            &&& n == l
        },
        Some(a) => exists|i: int|
            {
                &&& is_first_fit(l, align, size, i)
                &&& a == placed(l[i], align, size)
                &&& n == carve(l, i, align, size)
            },
    }
}

/// What `free` leaves of the free list `l` when `a` is given back.
pub open spec fn free_post(l: Seq<Allocation>, a: Allocation) -> Seq<Allocation> {
    coalesce_spec(l.insert(insert_pos(l, a.offset), a))
}

/// `a` fits in the gap of `l` where `free` inserts it: no free block overlaps it.
pub open spec fn fits_gap(l: Seq<Allocation>, a: Allocation) -> bool {
    let p = insert_pos(l, a.offset);
    &&& p == 0 || l[p - 1].end() <= a.offset
    &&& p == l.len() || a.end() <= l[p].offset
}


/// In a chained list, every block ends at or before any later block starts.
pub proof fn lemma_chained_pairwise(l: Seq<Allocation>, i: int, j: int)
    requires
        chained(l),
        0 <= i < j < l.len(),
    ensures
        l[i].end() <= l[j].offset,
    decreases j - i,
{
    assert(l[j - 1].end() <= l[j].offset);
    if i < j - 1 {
        lemma_chained_pairwise(l, i, j - 1);
    }
}

/// The pieces left by splitting a fitting block lie inside it, in order.
proof fn lemma_split_block(b: Allocation, align: usize, size: usize)
    requires
        align >= 1,
        b.end() + align - 1 <= usize::MAX,
        fits(b, align, size),
    ensures
        chained(split_block(b, align, size)),
        forall|k: int| 0 <= k < split_block(b, align, size).len() ==> {
            &&& b.offset <= #[trigger] split_block(b, align, size)[k].offset
            &&& split_block(b, align, size)[k].end() <= b.end()
        },
{
    lemma_align_up_bounds(b.offset, align);
    let start = align_up_spec(b.offset, align);
    let pad = padding(b, align);
    let rem = b.size - (pad + size);
    let p = split_block(b, align, size);
    if pad > 0 && rem > 0 {
        assert(p[0] == Allocation { offset: b.offset, size: pad as usize });
        assert(p[1] == Allocation { offset: (start + size) as usize, size: rem as usize });
    } else if pad > 0 {
        assert(p[0] == Allocation { offset: b.offset, size: pad as usize });
    } else if rem > 0 {
        assert(p[0] == Allocation { offset: (start + size) as usize, size: rem as usize });
    }
}

/// Replacing a block of a chained list by pieces lying inside it, in order,
/// keeps the list chained and bounded.
proof fn lemma_replace_chained(l: Seq<Allocation>, i: int, p: Seq<Allocation>, limit: int)
    requires
        chained(l),
        bounded(l, limit),
        0 <= i < l.len(),
        chained(p),
        forall|k: int| 0 <= k < p.len() ==> {
            &&& l[i].offset <= #[trigger] p[k].offset
            &&& p[k].end() <= l[i].end()
        },
    ensures
        chained(l.take(i) + p + l.skip(i + 1)),
        bounded(l.take(i) + p + l.skip(i + 1), limit),
{
    let n = l.take(i) + p + l.skip(i + 1);
    assert(n.len() == l.len() - 1 + p.len());
    assert forall|k: int| 0 <= k < n.len() - 1 implies #[trigger] n[k].end() <= n[k + 1].offset by {
        if k + 1 < i {
            assert(n[k] == l[k] && n[k + 1] == l[k + 1]);
        } else if k + 1 == i {
            assert(n[k] == l[k]);
            if p.len() > 0 {
                assert(n[k + 1] == p[0]);
            } else {
                assert(n[k + 1] == l[i + 1]);
                lemma_chained_pairwise(l, k, i + 1);
            }
        } else if k < i + p.len() {
            assert(n[k] == p[k - i]);
            if k + 1 < i + p.len() {
                assert(n[k + 1] == p[k + 1 - i]);
            } else {
                assert(n[k + 1] == l[i + 1]);
            }
        } else {
            assert(n[k] == l[k - p.len() + 1]);
            assert(n[k + 1] == l[k - p.len() + 2]);
        }
    }
    assert forall|k: int| 0 <= k < n.len() implies #[trigger] n[k].end() <= limit by {
        if k < i {
            assert(n[k] == l[k]);
        } else if k < i + p.len() {
            assert(n[k] == p[k - i]);
        } else {
            assert(n[k] == l[k - p.len() + 1]);
        }
    }
}

/// `insert_pos` is the index reached by scanning past every block whose
/// offset is at most `offset`.
proof fn lemma_insert_pos(l: Seq<Allocation>, offset: usize, i: int)
    requires
        0 <= i <= l.len(),
        forall|j: int| 0 <= j < i ==> (#[trigger] l[j]).offset <= offset,
        i < l.len() ==> l[i].offset > offset,
    ensures
        insert_pos(l, offset) == i,
    decreases i,
{
    if i > 0 {
        let t = l.drop_first();
        assert forall|j: int| 0 <= j < i - 1 implies (#[trigger] t[j]).offset <= offset by {
            assert(t[j] == l[j + 1]);
        }
        if i - 1 < t.len() {
            assert(t[i - 1] == l[i]);
        }
        lemma_insert_pos(t, offset, i - 1);
    }
}

proof fn lemma_insert_pos_range(l: Seq<Allocation>, offset: usize)
    ensures
        0 <= insert_pos(l, offset) <= l.len(),
    decreases l.len(),
{
    if l.len() > 0 && l[0].offset <= offset {
        lemma_insert_pos_range(l.drop_first(), offset);
    }
}

/// The merged list starts where `cur` starts.
proof fn lemma_coalesce_from_head(cur: Allocation, rest: Seq<Allocation>)
    ensures
        coalesce_from(cur, rest).len() >= 1,
        coalesce_from(cur, rest)[0].offset == cur.offset,
    decreases rest.len(),
{
    if rest.len() > 0 {
        if cur.end() == rest[0].offset {
            lemma_coalesce_from_head(
                Allocation { offset: cur.offset, size: (cur.size + rest[0].size) as usize },
                rest.drop_first(),
            );
        } else {
            lemma_coalesce_from_head(rest[0], rest.drop_first());
        }
    }
}

/// Merging touching blocks keeps a chained, bounded list chained and bounded.
proof fn lemma_coalesce_from_chained(cur: Allocation, rest: Seq<Allocation>, limit: int)
    requires
        chained(seq![cur] + rest),
        bounded(seq![cur] + rest, limit),
        limit <= usize::MAX,
    ensures
        chained(coalesce_from(cur, rest)),
        bounded(coalesce_from(cur, rest), limit),
    decreases rest.len(),
{
    let l = seq![cur] + rest;
    if rest.len() > 0 {
        let t = rest.drop_first();
        assert(l[0] == cur && l[1] == rest[0]);
        if cur.end() == rest[0].offset {
            let m = Allocation { offset: cur.offset, size: (cur.size + rest[0].size) as usize };
            assert(rest[0].end() <= limit);
            let n = seq![m] + t;
            assert forall|k: int| 0 <= k < n.len() - 1 implies #[trigger] n[k].end() <= n[k + 1].offset by {
                if k == 0 {
                    assert(n[1] == l[2]);
                    assert(l[1].end() <= l[2].offset);
                } else {
                    assert(n[k] == l[k + 1] && n[k + 1] == l[k + 2]);
                }
            }
            assert forall|k: int| 0 <= k < n.len() implies #[trigger] n[k].end() <= limit by {
                if k > 0 {
                    assert(n[k] == l[k + 1]);
                }
            }
            lemma_coalesce_from_chained(m, t, limit);
        } else {
            let n = seq![rest[0]] + t;
            assert(n =~= rest);
            assert forall|k: int| 0 <= k < n.len() - 1 implies #[trigger] n[k].end() <= n[k + 1].offset by {
                assert(n[k] == l[k + 1] && n[k + 1] == l[k + 2]);
            }
            assert forall|k: int| 0 <= k < n.len() implies #[trigger] n[k].end() <= limit by {
                assert(n[k] == l[k + 1]);
            }
            lemma_coalesce_from_chained(rest[0], t, limit);
            lemma_coalesce_from_head(rest[0], t);
            let c = coalesce_from(rest[0], t);
            let o = seq![cur] + c;
            assert(coalesce_from(cur, rest) == o);
            assert forall|k: int| 0 <= k < o.len() - 1 implies #[trigger] o[k].end() <= o[k + 1].offset by {
                if k == 0 {
                    assert(o[1] == c[0]);
                } else {
                    assert(o[k] == c[k - 1] && o[k + 1] == c[k]);
                }
            }
            assert forall|k: int| 0 <= k < o.len() implies #[trigger] o[k].end() <= limit by {
                if k > 0 {
                    assert(o[k] == c[k - 1]);
                }
            }
        }
    } else {
        assert(coalesce_from(cur, rest) =~= l);
    }
}

proof fn lemma_coalesce_chained(l: Seq<Allocation>, limit: int)
    requires
        chained(l),
        bounded(l, limit),
        limit <= usize::MAX,
    ensures
        chained(coalesce_spec(l)),
        bounded(coalesce_spec(l), limit),
{
    if l.len() > 0 {
        assert(seq![l[0]] + l.drop_first() =~= l);
        lemma_coalesce_from_chained(l[0], l.drop_first(), limit);
    }
}

/// Inserting a block into the gap it fits keeps the list chained and bounded.
proof fn lemma_insert_chained(l: Seq<Allocation>, a: Allocation, limit: int)
    requires
        chained(l),
        bounded(l, limit),
        a.end() <= limit,
        fits_gap(l, a),
    ensures
        chained(l.insert(insert_pos(l, a.offset), a)),
        bounded(l.insert(insert_pos(l, a.offset), a), limit),
{
    let p = insert_pos(l, a.offset);
    lemma_insert_pos_range(l, a.offset);
    let n = l.insert(p, a);
    assert forall|k: int| 0 <= k < n.len() - 1 implies #[trigger] n[k].end() <= n[k + 1].offset by {
        if k + 1 < p {
            assert(n[k] == l[k] && n[k + 1] == l[k + 1]);
        } else if k + 1 == p {
            assert(n[k] == l[k] && n[k + 1] == a);
        } else if k == p {
            assert(n[k] == a && n[k + 1] == l[p]);
        } else {
            assert(n[k] == l[k - 1] && n[k + 1] == l[k]);
        }
    }
    assert forall|k: int| 0 <= k < n.len() implies #[trigger] n[k].end() <= limit by {
        if k < p {
            assert(n[k] == l[k]);
        } else if k > p {
            assert(n[k] == l[k - 1]);
        }
    }
}

/// A first-fit free-list allocator over the byte range `[0, size)`.
#[derive(Debug)]
pub struct Allocator {
    free_list: Vec<Allocation>,
    alignment: usize,
}

impl Allocator {
    /// The free blocks, in list order.
    pub closed spec fn blocks(&self) -> Seq<Allocation> {
        self.free_list@
    }

    pub closed spec fn alignment(&self) -> usize {
        self.alignment
    }

    /// The highest block end for which aligning any offset cannot overflow.
    pub open spec fn limit(&self) -> int {
        usize::MAX - (self.alignment() - 1)
    }

    pub open spec fn wf(&self) -> bool {
        &&& self.alignment() >= 1
        &&& chained(self.blocks())
        &&& bounded(self.blocks(), self.limit())
    }

    /// `allocation` may be given back: it ends within the allocator's range and
    /// lies in a gap of the free list, between the blocks around its offset.
    /// An empty allocation lying inside a free block is not in such a gap:
    /// given back, it would sit in the list out of order with that block.
    pub open spec fn can_free(&self, allocation: Allocation) -> bool {
        &&& allocation.end() <= self.limit()
        &&& fits_gap(self.blocks(), allocation)
    }

    /// Create a freelist allocator of a given size
    pub fn new(size: usize, alignment: usize) -> (r: Self)
        requires
            alignment >= 1,
            size + alignment - 1 <= usize::MAX,
        ensures
            r.wf(),
            tidy(r.blocks()),
            r.alignment() == alignment,
            r.blocks() == seq![Allocation { offset: 0, size }],
    {
        let r = Allocator { free_list: vec![Allocation { offset: 0, size }], alignment };
        assert(r.blocks()[0] == Allocation { offset: 0, size });
        r
    }

    /// Returns an option of type Allocation if allocation succeeded, None if not
    ///
    /// First fit: the first free block with room for `size` bytes at its first
    /// aligned offset is split around the allocation.
    pub fn allocate(&mut self, size: usize) -> (r: Option<Allocation>)
        requires
            old(self).wf(),
            size + old(self).alignment() - 1 <= usize::MAX,
        ensures
            final(self).wf(),
            final(self).alignment() == old(self).alignment(),
            size > 0 && tidy(old(self).blocks()) ==> tidy(final(self).blocks()),
            allocate_post(old(self).blocks(), old(self).alignment(), size, r, final(self).blocks()),
    {
        let ghost l = self.free_list@;
        let align = self.alignment;
        let len = self.free_list.len();
        let mut i: usize = 0;
        while i < len
            invariant
                self.free_list@ == l,
                self.alignment == align,
                old(self).free_list@ == l,
                old(self).alignment == align,
                self.wf(),
                l.len() == len,
                size + align - 1 <= usize::MAX,
                0 <= i <= len,
                forall|j: int| 0 <= j < i ==> !fits(#[trigger] l[j], align, size),
            decreases len - i,
        {
            let block = self.free_list[i];
            assert(l[i as int].end() <= self.limit());
            let aligned_start = align_up(block.offset, align);
            let padding = aligned_start - block.offset;
            if block.size >= padding + size {
                let carved = Allocation { offset: aligned_start, size };
                let remaining = block.size - (padding + size);
                self.free_list.remove(i);
                if remaining > 0 {
                    self.free_list.insert(i, Allocation { offset: aligned_start + size, size: remaining });
                }
                if padding > 0 {
                    self.free_list.insert(i, Allocation { offset: block.offset, size: padding });
                }
                proof {
                    let p = split_block(block, align, size);
                    lemma_split_block(block, align, size);
                    assert(self.free_list@ =~= l.take(i as int) + p + l.skip(i + 1));
                    lemma_replace_chained(l, i as int, p, usize::MAX - (align - 1));
                    assert(is_first_fit(l, align, size, i as int));
                    if size > 0 && tidy(l) {
                        lemma_carve_tidy(l, align, size, i as int);
                    }
                    assert(carve(l, i as int, align, size) == self.free_list@);
                    assert(placed(l[i as int], align, size) == carved);
                    assert(exists|j: int|
                        {
                            &&& is_first_fit(l, align, size, j)
                            &&& carved == placed(l[j], align, size)
                            &&& self.free_list@ == carve(l, j, align, size)
                        });
                    assert(old(self).blocks() == l);
                    assert(old(self).alignment() == align);
                    assert(self.blocks() == self.free_list@);
                }
                return Some(carved);
            }
            i += 1;
        }
        None
    }

    /// Free an Allocation
    ///
    /// The range goes back into the free list at its sorted position and
    /// touching blocks are merged.
    pub fn free(&mut self, allocation: Allocation)
        requires
            old(self).wf(),
            old(self).can_free(allocation),
        ensures
            final(self).wf(),
            final(self).alignment() == old(self).alignment(),
            tidy(final(self).blocks()),
            final(self).blocks() == free_post(old(self).blocks(), allocation),
    {
        let ghost l = self.free_list@;
        let len = self.free_list.len();
        let mut pos: usize = 0;
        while pos < len && self.free_list[pos].offset <= allocation.offset
            invariant
                self.free_list@ == l,
                l.len() == len,
                0 <= pos <= len,
                forall|j: int| 0 <= j < pos ==> (#[trigger] l[j]).offset <= allocation.offset,
            decreases len - pos,
        {
            pos += 1;
        }
        proof {
            lemma_insert_pos(l, allocation.offset, pos as int);
            lemma_insert_chained(l, allocation, self.limit());
        }
        self.free_list.insert(pos, allocation);
        self.coalesce();
        proof {
            lemma_coalesce_chained(l.insert(pos as int, allocation), self.limit());
            lemma_coalesce_tidy_out(l.insert(pos as int, allocation));
        }
    }


    /// Whether `allocation` may be passed to [`Allocator::free`]: it ends within
    /// the allocator's range and no free block overlaps it.
    pub fn is_releasable(&self, allocation: Allocation) -> (r: bool)
        requires
            self.wf(),
        ensures
            r == self.can_free(allocation),
    {
        let limit = usize::MAX - (self.alignment - 1);
        if allocation.offset > limit || allocation.size > limit - allocation.offset {
            return false;
        }
        let ghost l = self.free_list@;
        let len = self.free_list.len();
        let mut pos: usize = 0;
        while pos < len && self.free_list[pos].offset <= allocation.offset
            invariant
                self.free_list@ == l,
                l.len() == len,
                0 <= pos <= len,
                forall|j: int| 0 <= j < pos ==> (#[trigger] l[j]).offset <= allocation.offset,
            decreases len - pos,
        {
            pos += 1;
        }
        proof {
            lemma_insert_pos(l, allocation.offset, pos as int);
        }
        let before_ok = pos == 0 || {
            let prev = self.free_list[pos - 1];
            proof {
                assert(bounded(l, self.limit()));
                assert(l[pos - 1].end() <= self.limit());
            }
            prev.offset + prev.size <= allocation.offset
        };
        let after_ok = pos == len || allocation.offset + allocation.size <= self.free_list[pos].offset;
        before_ok && after_ok
    }

    /// Merges every run of touching free blocks into a single block.
    fn coalesce(&mut self)
        requires
            bounded(old(self).blocks(), usize::MAX as int),
        ensures
            final(self).alignment() == old(self).alignment(),
            final(self).blocks() == coalesce_spec(old(self).blocks()),
    {
        if self.free_list.len() == 0 {
            return;
        }
        let ghost l = self.free_list@;
        let len = self.free_list.len();
        let mut merged: Vec<Allocation> = Vec::with_capacity(len);
        let mut current = self.free_list[0];
        let mut i: usize = 1;
        assert(l.subrange(1, len as int) =~= l.drop_first());
        while i < len
            invariant
                self.free_list@ == l,
                l.len() == len,
                1 <= i <= len,
                bounded(l, usize::MAX as int),
                current.end() <= usize::MAX,
                merged@ + coalesce_from(current, l.subrange(i as int, len as int)) == coalesce_spec(l),
            decreases len - i,
        {
            let next = self.free_list[i];
            let ghost rest = l.subrange(i as int, len as int);
            assert(rest[0] == next);
            assert(rest.drop_first() =~= l.subrange(i + 1, len as int));
            assert(l[i as int].end() <= usize::MAX);
            if current.offset + current.size == next.offset {
                current = Allocation { offset: current.offset, size: current.size + next.size };
            } else {
                assert(merged@.push(current) + coalesce_from(next, rest.drop_first())
                    =~= merged@ + (seq![current] + coalesce_from(next, rest.drop_first())));
                merged.push(current);
                current = next;
            }
            i += 1;
        }
        assert(l.subrange(len as int, len as int) =~= Seq::<Allocation>::empty());
        merged.push(current);
        self.free_list = merged;
    }
}

} // verus!

verus! {

/// The set of byte addresses covered by the blocks of `l`.
pub open spec fn free_set(l: Seq<Allocation>) -> Set<int> {
    Set::new(|x: int| exists|k: int| 0 <= k < l.len() && (#[trigger] l[k]).region().contains(x))
}

proof fn lemma_free_set_concat(a: Seq<Allocation>, b: Seq<Allocation>)
    ensures
        free_set(a + b) == free_set(a).union(free_set(b)),
{
    let c = a + b;
    assert forall|x: int| free_set(c).contains(x) <==> free_set(a).union(free_set(b)).contains(x) by {
        if free_set(c).contains(x) {
            let k = choose|k: int| 0 <= k < c.len() && (#[trigger] c[k]).region().contains(x);
            if k < a.len() {
                assert(a[k] == c[k]);
            } else {
                assert(b[k - a.len()] == c[k]);
            }
        }
        if free_set(a).contains(x) {
            let k = choose|k: int| 0 <= k < a.len() && (#[trigger] a[k]).region().contains(x);
            assert(c[k] == a[k]);
        }
        if free_set(b).contains(x) {
            let k = choose|k: int| 0 <= k < b.len() && (#[trigger] b[k]).region().contains(x);
            assert(c[k + a.len()] == b[k]);
        }
    }
    assert(free_set(c) =~= free_set(a).union(free_set(b)));
}

proof fn lemma_free_set_single(b: Allocation)
    ensures
        free_set(seq![b]) == b.region(),
{
    let s = seq![b];
    assert forall|x: int| free_set(s).contains(x) <==> b.region().contains(x) by {
        if b.region().contains(x) {
            assert(s[0] == b);
        }
    }
    assert(free_set(s) =~= b.region());
}

proof fn lemma_free_set_empty()
    ensures
        free_set(Seq::<Allocation>::empty()) == Set::<int>::empty(),
{
    assert(free_set(Seq::<Allocation>::empty()) =~= Set::<int>::empty());
}

/// Splitting `l` around index `i`.
proof fn lemma_free_set_around(l: Seq<Allocation>, i: int)
    requires
        0 <= i < l.len(),
    ensures
        free_set(l) == free_set(l.take(i)).union(l[i].region()).union(free_set(l.skip(i + 1))),
{
    assert(l =~= l.take(i) + seq![l[i]] + l.skip(i + 1));
    lemma_free_set_concat(l.take(i) + seq![l[i]], l.skip(i + 1));
    lemma_free_set_concat(l.take(i), seq![l[i]]);
    lemma_free_set_single(l[i]);
}

/// Merging touching blocks covers the same addresses.
proof fn lemma_free_set_coalesce_from(cur: Allocation, rest: Seq<Allocation>)
    requires
        cur.end() <= usize::MAX,
        bounded(rest, usize::MAX as int),
    ensures
        free_set(coalesce_from(cur, rest)) == cur.region().union(free_set(rest)),
    decreases rest.len(),
{
    if rest.len() == 0 {
        lemma_free_set_single(cur);
        lemma_free_set_empty();
        assert(cur.region().union(Set::<int>::empty()) =~= cur.region());
    } else {
        let t = rest.drop_first();
        assert(rest =~= seq![rest[0]] + t);
        lemma_free_set_concat(seq![rest[0]], t);
        lemma_free_set_single(rest[0]);
        assert(rest[0].end() <= usize::MAX);
        assert(bounded(t, usize::MAX as int)) by {
            assert forall|k: int| 0 <= k < t.len() implies #[trigger] t[k].end() <= usize::MAX by {
                assert(t[k] == rest[k + 1]);
            }
        }
        if cur.end() == rest[0].offset {
            let m = Allocation { offset: cur.offset, size: (cur.size + rest[0].size) as usize };
            lemma_free_set_coalesce_from(m, t);
            assert(m.region() =~= cur.region().union(rest[0].region()));
            assert(m.region().union(free_set(t)) =~= cur.region().union(rest[0].region().union(free_set(t))));
        } else {
            lemma_free_set_coalesce_from(rest[0], t);
            lemma_free_set_concat(seq![cur], coalesce_from(rest[0], t));
            lemma_free_set_single(cur);
        }
    }
}

proof fn lemma_free_set_coalesce(l: Seq<Allocation>)
    requires
        bounded(l, usize::MAX as int),
    ensures
        free_set(coalesce_spec(l)) == free_set(l),
{
    if l.len() > 0 {
        assert(l =~= seq![l[0]] + l.drop_first());
        assert(l[0].end() <= usize::MAX);
        assert(bounded(l.drop_first(), usize::MAX as int)) by {
            assert forall|k: int| 0 <= k < l.drop_first().len() implies #[trigger] l.drop_first()[k].end() <= usize::MAX by {
                assert(l.drop_first()[k] == l[k + 1]);
            }
        }
        lemma_free_set_coalesce_from(l[0], l.drop_first());
        lemma_free_set_concat(seq![l[0]], l.drop_first());
        lemma_free_set_single(l[0]);
    }
}

/// The pieces left by an allocation cover the block minus the allocation.
proof fn lemma_free_set_split(b: Allocation, align: usize, size: usize)
    requires
        align >= 1,
        b.end() + align - 1 <= usize::MAX,
        fits(b, align, size),
    ensures
        free_set(split_block(b, align, size)) == b.region().difference(placed(b, align, size).region()),
{
    lemma_align_up_bounds(b.offset, align);
    let start = align_up_spec(b.offset, align);
    let pad = padding(b, align);
    let rem = b.size - (pad + size);
    let head = Allocation { offset: b.offset, size: pad as usize };
    let tail = Allocation { offset: (start + size) as usize, size: rem as usize };
    let p = split_block(b, align, size);
    let target = b.region().difference(placed(b, align, size).region());
    lemma_free_set_single(head);
    lemma_free_set_single(tail);
    lemma_free_set_empty();
    if pad > 0 && rem > 0 {
        assert(p =~= seq![head] + seq![tail]);
        lemma_free_set_concat(seq![head], seq![tail]);
        assert(free_set(p) =~= target);
    } else if pad > 0 {
        assert(p =~= seq![head]);
        assert(free_set(p) =~= target);
    } else if rem > 0 {
        assert(p =~= seq![tail]);
        assert(free_set(p) =~= target);
    } else {
        assert(p =~= Seq::<Allocation>::empty());
        assert(free_set(p) =~= target);
    }
}

/// Allocation law: the range handed out by `allocate` was free, and exactly
/// that range stops being free; every other free byte stays free.
pub proof fn lemma_allocate_takes_free_range(l: Seq<Allocation>, align: usize, size: usize, i: int)
    requires
        align >= 1,
        chained(l),
        bounded(l, usize::MAX - (align - 1)),
        is_first_fit(l, align, size, i),
    ensures
        placed(l[i], align, size).region().subset_of(free_set(l)),
        free_set(carve(l, i, align, size)) == free_set(l).difference(placed(l[i], align, size).region()),
{
    let b = l[i];
    let a = placed(b, align, size);
    assert(b.end() <= usize::MAX - (align - 1));
    lemma_align_up_bounds(b.offset, align);
    lemma_free_set_around(l, i);
    lemma_free_set_split(b, align, size);
    let pre = l.take(i);
    let post = l.skip(i + 1);
    let p = split_block(b, align, size);
    lemma_free_set_concat(pre + p, post);
    lemma_free_set_concat(pre, p);
    assert forall|x: int| free_set(pre).contains(x) implies !a.region().contains(x) by {
        let k = choose|k: int| 0 <= k < pre.len() && (#[trigger] pre[k]).region().contains(x);
        assert(pre[k] == l[k]);
        lemma_chained_pairwise(l, k, i);
    }
    assert forall|x: int| free_set(post).contains(x) implies !a.region().contains(x) by {
        let k = choose|k: int| 0 <= k < post.len() && (#[trigger] post[k]).region().contains(x);
        assert(post[k] == l[k + i + 1]);
        lemma_chained_pairwise(l, i, k + i + 1);
    }
    assert(a.region().subset_of(b.region()));
    assert(free_set(carve(l, i, align, size)) =~= free_set(l).difference(a.region()));
}

/// Free law: after `free`, the free addresses are the old ones plus the
/// returned range.
pub proof fn lemma_free_returns_range(l: Seq<Allocation>, a: Allocation)
    requires
        bounded(l, usize::MAX as int),
        a.end() <= usize::MAX,
    ensures
        free_set(coalesce_spec(l.insert(insert_pos(l, a.offset), a))) == free_set(l).union(a.region()),
{
    let p = insert_pos(l, a.offset);
    lemma_insert_pos_range(l, a.offset);
    let n = l.insert(p, a);
    assert forall|k: int| 0 <= k < n.len() implies #[trigger] n[k].end() <= usize::MAX by {
        if k < p {
            assert(n[k] == l[k]);
        } else if k > p {
            assert(n[k] == l[k - 1]);
        }
    }
    lemma_free_set_coalesce(n);
    assert(l.insert(p, a) =~= l.take(p) + seq![a] + l.skip(p));
    assert(l =~= l.take(p) + l.skip(p));
    lemma_free_set_concat(l.take(p) + seq![a], l.skip(p));
    lemma_free_set_concat(l.take(p), seq![a]);
    lemma_free_set_concat(l.take(p), l.skip(p));
    lemma_free_set_single(a);
    assert(free_set(l.insert(p, a)) =~= free_set(l).union(a.region()));
}

/// Alignment law: with a power-of-two alignment every allocation starts at a
/// multiple of the alignment, inside the block it was carved from.
pub proof fn lemma_allocate_aligned(l: Seq<Allocation>, align: usize, size: usize, i: int)
    requires
        is_pow2(align),
        bounded(l, usize::MAX - (align - 1)),
        is_first_fit(l, align, size, i),
    ensures
        placed(l[i], align, size).offset % align == 0,
        l[i].offset <= placed(l[i], align, size).offset,
        placed(l[i], align, size).end() <= l[i].end(),
{
    let k = choose|k: nat| k < usize::BITS && align == pow2(k);
    lemma_pow2_pos(k);
    assert(l[i].end() <= usize::MAX - (align - 1));
    lemma_align_up_pow2(l[i].offset, align);
}

} // verus!

verus! {

/// Consecutive free blocks are separated by at least one allocated byte.
pub open spec fn tidy(l: Seq<Allocation>) -> bool {
    forall|i: int| 0 <= i < l.len() - 1 ==> #[trigger] l[i].end() < l[i + 1].offset
}

proof fn lemma_coalesce_from_tidy(cur: Allocation, rest: Seq<Allocation>)
    requires
        tidy(seq![cur] + rest),
    ensures
        coalesce_from(cur, rest) == seq![cur] + rest,
    decreases rest.len(),
{
    let l = seq![cur] + rest;
    if rest.len() == 0 {
        assert(seq![cur] + rest =~= seq![cur]);
    } else {
        let t = rest.drop_first();
        assert(l[0] == cur && l[1] == rest[0]);
        assert forall|k: int| 0 <= k < (seq![rest[0]] + t).len() - 1 implies #[trigger] (seq![
            rest[0],
        ] + t)[k].end() < (seq![rest[0]] + t)[k + 1].offset by {
            assert((seq![rest[0]] + t)[k] == l[k + 1]);
            assert((seq![rest[0]] + t)[k + 1] == l[k + 2]);
        }
        lemma_coalesce_from_tidy(rest[0], t);
        assert(seq![rest[0]] + t =~= rest);
        assert(seq![cur] + (seq![rest[0]] + t) =~= l);
    }
}

/// Walking past `k` blocks that do not touch their successors.
proof fn lemma_coalesce_from_walk(cur: Allocation, rest: Seq<Allocation>, k: int)
    requires
        0 <= k <= rest.len(),
        forall|j: int|
            0 <= j < k ==> (#[trigger] (seq![cur] + rest)[j]).end() != (seq![cur] + rest)[j
                + 1].offset,
    ensures
        coalesce_from(cur, rest) == (seq![cur] + rest).take(k) + coalesce_from(
            (seq![cur] + rest)[k],
            rest.skip(k),
        ),
    decreases k,
{
    let l = seq![cur] + rest;
    if k == 0 {
        assert(l[0] == cur);
        assert(rest.skip(0) =~= rest);
        assert(l.take(0) + coalesce_from(cur, rest) =~= coalesce_from(cur, rest));
    } else {
        let t = rest.drop_first();
        let l2 = seq![rest[0]] + t;
        assert(l2 =~= rest);
        assert(l[0].end() != l[1].offset);
        assert forall|j: int| 0 <= j < k - 1 implies (#[trigger] l2[j]).end() != l2[j + 1].offset by {
            assert(l2[j] == l[j + 1] && l2[j + 1] == l[j + 2]);
        }
        lemma_coalesce_from_walk(rest[0], t, k - 1);
        assert(l2[k - 1] == l[k]);
        assert(t.skip(k - 1) =~= rest.skip(k));
        assert(seq![cur] + l2.take(k - 1) =~= l.take(k));
    }
}

/// Where `free` puts an allocation just carved from block `i` back.
proof fn lemma_carve_gap(l: Seq<Allocation>, align: usize, size: usize, i: int)
    requires
        align >= 1,
        tidy(l),
        bounded(l, usize::MAX - (align - 1)),
        size > 0,
        is_first_fit(l, align, size, i),
    ensures
        ({
            let n = carve(l, i, align, size);
            let a = placed(l[i], align, size);
            &&& insert_pos(n, a.offset) == if padding(l[i], align) > 0 { i + 1 } else { i }
            &&& fits_gap(n, a)
        }),
{
    let b = l[i];
    assert(b.end() <= usize::MAX - (align - 1));
    lemma_align_up_bounds(b.offset, align);
    let start = align_up_spec(b.offset, align);
    let pad = padding(b, align);
    let rem = b.size - (pad + size);
    let a = placed(b, align, size);
    let head = Allocation { offset: b.offset, size: pad as usize };
    let tail = Allocation { offset: (start + size) as usize, size: rem as usize };
    let n = carve(l, i, align, size);
    assert(chained(l));
    let q = if pad > 0 { i + 1 } else { i };
    assert forall|j: int| 0 <= j < q implies (#[trigger] n[j]).offset <= start by {
        if j < i {
            assert(n[j] == l[j]);
            lemma_chained_pairwise(l, j, i);
        } else {
            assert(n[j] == head);
        }
    }
    if rem > 0 {
        assert(n[q] == tail);
    } else if q < n.len() {
        assert(n[q] == l[i + 1]);
        assert(l[i].end() < l[i + 1].offset);
    }
    lemma_insert_pos(n, start, q);
    if q > 0 {
        if pad > 0 {
            assert(n[q - 1] == head);
        } else {
            assert(n[q - 1] == l[i - 1]);
            assert(l[i - 1].end() < l[i].offset);
        }
    }
}

/// Block `b` as the run padding, allocation, tail that `allocate` cuts it into.
pub open spec fn run_pieces(b: Allocation, align: usize, size: usize) -> Seq<Allocation> {
    let start = align_up_spec(b.offset, align);
    let pad = padding(b, align);
    let rem = b.size - (pad + size);
    let head = if pad > 0 {
        seq![Allocation { offset: b.offset, size: pad as usize }]
    } else {
        Seq::<Allocation>::empty()
    };
    let tail = if rem > 0 {
        seq![Allocation { offset: (start + size) as usize, size: rem as usize }]
    } else {
        Seq::<Allocation>::empty()
    };
    head + seq![placed(b, align, size)] + tail
}

/// The run padding, allocation, tail merges back into the block it came from.
proof fn lemma_merge_run(b: Allocation, align: usize, size: usize, post: Seq<Allocation>)
    requires
        align >= 1,
        b.end() <= usize::MAX - (align - 1),
        size > 0,
        fits(b, align, size),
    ensures
        run_pieces(b, align, size)[0].offset == b.offset,
        coalesce_from(run_pieces(b, align, size)[0], run_pieces(b, align, size).drop_first() + post)
            == coalesce_from(b, post),
{
    lemma_align_up_bounds(b.offset, align);
    let start = align_up_spec(b.offset, align);
    let pad = padding(b, align);
    let rem = b.size - (pad + size);
    let head = Allocation { offset: b.offset, size: pad as usize };
    let tail = Allocation { offset: (start + size) as usize, size: rem as usize };
    let a = placed(b, align, size);
    let mid = run_pieces(b, align, size);
    let r = mid.drop_first() + post;
    let ab = Allocation { offset: b.offset, size: (pad + size) as usize };
    if pad > 0 {
        assert(mid[0] == head && r[0] == a);
        assert(coalesce_from(head, r) == coalesce_from(ab, r.drop_first()));
        if rem > 0 {
            let r2 = r.drop_first();
            assert(r2[0] == tail);
            assert(coalesce_from(ab, r2) == coalesce_from(b, r2.drop_first()));
            assert(r2.drop_first() =~= post);
        } else {
            assert(ab == b);
            assert(r.drop_first() =~= post);
        }
    } else {
        assert(mid[0] == a);
        if rem > 0 {
            assert(r[0] == tail);
            assert(coalesce_from(a, r) == coalesce_from(b, r.drop_first()));
            assert(r.drop_first() =~= post);
        } else {
            assert(a == b);
            assert(r =~= post);
        }
    }
}

/// Putting the allocation back into the carved list rebuilds the run in place.
proof fn lemma_reinsert_run(l: Seq<Allocation>, align: usize, size: usize, i: int)
    requires
        align >= 1,
        tidy(l),
        bounded(l, usize::MAX - (align - 1)),
        size > 0,
        is_first_fit(l, align, size, i),
    ensures
        ({
            let n = carve(l, i, align, size);
            let a = placed(l[i], align, size);
            n.insert(insert_pos(n, a.offset), a) == l.take(i) + run_pieces(l[i], align, size)
                + l.skip(i + 1)
        }),
{
    let b = l[i];
    assert(b.end() <= usize::MAX - (align - 1));
    lemma_carve_gap(l, align, size, i);
    let n = carve(l, i, align, size);
    let a = placed(b, align, size);
    let q = insert_pos(n, a.offset);
    assert(n.insert(q, a) =~= l.take(i) + run_pieces(b, align, size) + l.skip(i + 1));
}

/// Coalescing walks unchanged past a prefix whose blocks never touch.
proof fn lemma_coalesce_tidy_prefix(pre: Seq<Allocation>, x: Allocation, rest: Seq<Allocation>)
    requires
        tidy(pre),
        pre.len() > 0 ==> pre.last().end() < x.offset,
    ensures
        coalesce_spec(pre + seq![x] + rest) == pre + coalesce_from(x, rest),
{
    let m = pre + seq![x] + rest;
    let k = pre.len() as int;
    assert(seq![m[0]] + m.drop_first() =~= m);
    assert forall|j: int| 0 <= j < k implies (#[trigger] (seq![m[0]] + m.drop_first())[j]).end()
        != (seq![m[0]] + m.drop_first())[j + 1].offset by {
        assert(m[j] == pre[j]);
        if j + 1 < k {
            assert(m[j + 1] == pre[j + 1]);
        } else {
            assert(m[j + 1] == x);
        }
    }
    lemma_coalesce_from_walk(m[0], m.drop_first(), k);
    assert(m.take(k) =~= pre);
    assert(m[k] == x);
    assert(m.drop_first().skip(k) =~= rest);
}

/// Round-trip law: on a free list whose blocks never touch, freeing what
/// `allocate` just returned is allowed and gives back the very same list.
pub proof fn lemma_allocate_then_free_restores(l: Seq<Allocation>, align: usize, size: usize, i: int)
    requires
        align >= 1,
        tidy(l),
        bounded(l, usize::MAX - (align - 1)),
        size > 0,
        is_first_fit(l, align, size, i),
    ensures
        ({
            let n = carve(l, i, align, size);
            let a = placed(l[i], align, size);
            &&& a.end() <= usize::MAX - (align - 1)
            &&& fits_gap(n, a)
            &&& coalesce_spec(n.insert(insert_pos(n, a.offset), a)) == l
        }),
{
    let b = l[i];
    assert(b.end() <= usize::MAX - (align - 1));
    lemma_align_up_bounds(b.offset, align);
    lemma_carve_gap(l, align, size, i);
    lemma_reinsert_run(l, align, size, i);
    let pre = l.take(i);
    let post = l.skip(i + 1);
    let mid = run_pieces(b, align, size);
    lemma_merge_run(b, align, size, post);
    assert(tidy(pre)) by {
        assert forall|k: int| 0 <= k < pre.len() - 1 implies #[trigger] pre[k].end() < pre[k
            + 1].offset by {
            assert(pre[k] == l[k] && pre[k + 1] == l[k + 1]);
        }
    }
    if i > 0 {
        assert(pre.last() == l[i - 1]);
        assert(l[i - 1].end() < l[i].offset);
    }
    assert(pre + mid + post =~= pre + seq![mid[0]] + (mid.drop_first() + post));
    lemma_coalesce_tidy_prefix(pre, mid[0], mid.drop_first() + post);
    assert(seq![b] + post =~= l.skip(i));
    assert forall|k: int| 0 <= k < (seq![b] + post).len() - 1 implies #[trigger] (seq![b]
        + post)[k].end() < (seq![b] + post)[k + 1].offset by {
        assert((seq![b] + post)[k] == l[k + i]);
        assert((seq![b] + post)[k + 1] == l[k + i + 1]);
    }
    lemma_coalesce_from_tidy(b, post);
    assert(pre + l.skip(i) =~= l);
}

} // verus!

verus! {

/// Coalescing a chained list leaves no two consecutive blocks touching.
proof fn lemma_coalesce_from_tidy_out(cur: Allocation, rest: Seq<Allocation>)
    requires
        chained(seq![cur] + rest),
    ensures
        tidy(coalesce_from(cur, rest)),
    decreases rest.len(),
{
    let l = seq![cur] + rest;
    if rest.len() > 0 {
        let t = rest.drop_first();
        assert(l[0] == cur && l[1] == rest[0]);
        if cur.end() == rest[0].offset {
            let m = Allocation { offset: cur.offset, size: (cur.size + rest[0].size) as usize };
            let n = seq![m] + t;
            assert forall|k: int| 0 <= k < n.len() - 1 implies #[trigger] n[k].end() <= n[k + 1].offset by {
                if k == 0 {
                    assert(n[1] == l[2]);
                    assert(l[1].end() <= l[2].offset);
                } else {
                    assert(n[k] == l[k + 1] && n[k + 1] == l[k + 2]);
                }
            }
            lemma_coalesce_from_tidy_out(m, t);
        } else {
            let n = seq![rest[0]] + t;
            assert forall|k: int| 0 <= k < n.len() - 1 implies #[trigger] n[k].end() <= n[k + 1].offset by {
                assert(n[k] == l[k + 1] && n[k + 1] == l[k + 2]);
            }
            lemma_coalesce_from_tidy_out(rest[0], t);
            lemma_coalesce_from_head(rest[0], t);
            let c = coalesce_from(rest[0], t);
            let o = seq![cur] + c;
            assert(coalesce_from(cur, rest) == o);
            assert forall|k: int| 0 <= k < o.len() - 1 implies #[trigger] o[k].end() < o[k + 1].offset by {
                if k == 0 {
                    assert(o[1] == c[0]);
                } else {
                    assert(o[k] == c[k - 1] && o[k + 1] == c[k]);
                }
            }
        }
    }
}

proof fn lemma_coalesce_tidy_out(l: Seq<Allocation>)
    requires
        chained(l),
    ensures
        tidy(coalesce_spec(l)),
{
    if l.len() > 0 {
        assert(seq![l[0]] + l.drop_first() =~= l);
        lemma_coalesce_from_tidy_out(l[0], l.drop_first());
    }
}

/// A non-empty allocation from a list whose blocks never touch leaves a list
/// whose blocks never touch.
proof fn lemma_carve_tidy(l: Seq<Allocation>, align: usize, size: usize, i: int)
    requires
        align >= 1,
        tidy(l),
        bounded(l, usize::MAX - (align - 1)),
        size > 0,
        is_first_fit(l, align, size, i),
    ensures
        tidy(carve(l, i, align, size)),
{
    let b = l[i];
    assert(b.end() <= usize::MAX - (align - 1));
    lemma_align_up_bounds(b.offset, align);
    let start = align_up_spec(b.offset, align);
    let pad = padding(b, align);
    let rem = b.size - (pad + size);
    let head = Allocation { offset: b.offset, size: pad as usize };
    let tail = Allocation { offset: (start + size) as usize, size: rem as usize };
    let p = split_block(b, align, size);
    let n = carve(l, i, align, size);
    assert(n.len() == l.len() - 1 + p.len());
    if pad > 0 && rem > 0 {
        assert(p[0] == head && p[1] == tail);
    } else if pad > 0 {
        assert(p[0] == head);
    } else if rem > 0 {
        assert(p[0] == tail);
    }
    assert forall|k: int| 0 <= k < n.len() - 1 implies #[trigger] n[k].end() < n[k + 1].offset by {
        if k + 1 < i {
            assert(n[k] == l[k] && n[k + 1] == l[k + 1]);
        } else if k + 1 == i {
            assert(n[k] == l[k]);
            assert(l[k].end() < l[k + 1].offset);
            if p.len() > 0 {
                assert(n[k + 1] == p[0]);
            } else {
                assert(n[k + 1] == l[i + 1]);
                assert(l[i].end() < l[i + 1].offset);
            }
        } else if k < i + p.len() {
            assert(n[k] == p[k - i]);
            if k + 1 < i + p.len() {
                assert(n[k + 1] == p[k + 1 - i]);
            } else {
                assert(n[k + 1] == l[i + 1]);
                assert(l[i].end() < l[i + 1].offset);
            }
        } else {
            assert(n[k] == l[k - p.len() + 1]);
            assert(n[k + 1] == l[k - p.len() + 2]);
        }
    }
}


/// The free blocks `l` and the live allocations `live` split `[0, total)`
/// between them: together they cover exactly those bytes, no byte is both
/// free and allocated, and no two live allocations share a byte.
pub open spec fn partitions(l: Seq<Allocation>, live: Seq<Allocation>, total: int) -> bool {
    &&& free_set(l).union(free_set(live)) == Set::new(|x: int| 0 <= x < total)
    &&& free_set(l).disjoint(free_set(live))
    &&& forall|i: int, j: int|
        0 <= i < j < live.len() ==> (#[trigger] live[i]).region().disjoint((#[trigger] live[j]).region())
}

/// A new allocator's free list covers its whole range, with nothing live.
pub proof fn lemma_new_partitions(total: usize)
    ensures
        partitions(seq![Allocation { offset: 0, size: total }], Seq::<Allocation>::empty(), total as int),
{
    lemma_free_set_single(Allocation { offset: 0, size: total });
    lemma_free_set_empty();
    assert(free_set(seq![Allocation { offset: 0, size: total }]).union(free_set(Seq::<Allocation>::empty()))
        =~= Set::new(|x: int| 0 <= x < total));
}

/// Partition law of allocation: if the free blocks and the live allocations
/// split `[0, total)` before `allocate`, they still do afterwards, with the
/// returned allocation, if any, added to the live ones.
pub proof fn lemma_allocate_keeps_partition(
    before: Allocator,
    after: Allocator,
    size: usize,
    r: Option<Allocation>,
    live: Seq<Allocation>,
    total: int,
)
    requires
        before.wf(),
        allocate_post(before.blocks(), before.alignment(), size, r, after.blocks()),
        partitions(before.blocks(), live, total),
    ensures
        partitions(
            after.blocks(),
            match r {
                Some(a) => live.push(a),
                None => live,
            },
            total,
        ),
{
    if let Some(a) = r {
        let l = before.blocks();
        let align = before.alignment();
        let i = choose|i: int|
            {
                &&& is_first_fit(l, align, size, i)
                &&& a == placed(l[i], align, size)
                &&& after.blocks() == carve(l, i, align, size)
            };
        lemma_allocate_takes_free_range(l, align, size, i);
        let n = live.push(a);
        assert(n =~= live + seq![a]);
        lemma_free_set_concat(live, seq![a]);
        lemma_free_set_single(a);
        assert(free_set(after.blocks()).union(free_set(n)) =~= Set::new(|x: int| 0 <= x < total));
        assert(free_set(after.blocks()).disjoint(free_set(n)));
        assert forall|p: int, q: int| 0 <= p < q < n.len() implies (#[trigger] n[p]).region().disjoint(
            (#[trigger] n[q]).region(),
        ) by {
            if q == live.len() {
                assert(n[p] == live[p]);
                assert forall|x: int| n[p].region().contains(x) implies !a.region().contains(x) by {
                    assert(live[p].region().contains(x));
                    assert(free_set(live).contains(x));
                }
            } else {
                assert(n[p] == live[p] && n[q] == live[q]);
            }
        }
    }
}

/// Partition law of freeing: if the free blocks and the live allocations
/// split `[0, total)` and the `k`-th live allocation is freed, the free
/// blocks and the other live allocations split `[0, total)` afterwards.
pub proof fn lemma_free_keeps_partition(before: Allocator, after: Allocator, live: Seq<Allocation>, k: int, total: int)
    requires
        before.wf(),
        0 <= k < live.len(),
        before.can_free(live[k]),
        after.blocks() == free_post(before.blocks(), live[k]),
        partitions(before.blocks(), live, total),
    ensures
        partitions(after.blocks(), live.remove(k), total),
{
    let l = before.blocks();
    let a = live[k];
    assert forall|i: int| 0 <= i < l.len() implies #[trigger] l[i].end() <= usize::MAX by {
        assert(l[i].end() <= before.limit());
    }
    lemma_free_returns_range(l, a);
    let m = live.remove(k);
    lemma_free_set_around(live, k);
    assert(m =~= live.take(k) + live.skip(k + 1));
    lemma_free_set_concat(live.take(k), live.skip(k + 1));
    assert forall|x: int| free_set(m).contains(x) implies !a.region().contains(x) by {
        let j = choose|j: int| 0 <= j < m.len() && (#[trigger] m[j]).region().contains(x);
        if j < k {
            assert(m[j] == live[j]);
            assert(live[j].region().disjoint(live[k].region()));
        } else {
            assert(m[j] == live[j + 1]);
            assert(live[k].region().disjoint(live[j + 1].region()));
        }
    }
    assert(free_set(after.blocks()).union(free_set(m)) =~= Set::new(|x: int| 0 <= x < total));
    assert(free_set(after.blocks()).disjoint(free_set(m)));
    assert forall|p: int, q: int| 0 <= p < q < m.len() implies (#[trigger] m[p]).region().disjoint(
        (#[trigger] m[q]).region(),
    ) by {
        let p0 = if p < k { p } else { p + 1 };
        let q0 = if q < k { q } else { q + 1 };
        assert(m[p] == live[p0] && m[q] == live[q0]);
        assert(live[p0].region().disjoint(live[q0].region()));
    }
}

} // verus!
