//! The kernel heap: a first-fit allocator over a singly linked list of free
//! blocks. Each free block starts with a header (its size and the link to
//! the next free block); the list is kept here as the sequence of blocks in
//! link order, the head first.
use vstd::prelude::*;
use vstd::arithmetic::power2::pow2;
use vstd::bits::low_bits_mask;

verus! {

/// Bytes taken by the header of a free block: its size and the link to
/// the next block, two 64-bit words.
pub const FREE_NODE_SIZE: usize = 16;

/// Whether `a` is a power of two that fits in a `usize`, as every
/// alignment of a memory layout is.
pub open spec fn is_power_of_two(a: usize) -> bool {
    exists|n: nat| n < usize::BITS && pow2(n) == a
}

/// Clearing the low bits of `x` below a power of two rounds `x` down to a
/// multiple of it.
pub proof fn lemma_mask_rounds_down(x: usize, a: usize)
    requires
        is_power_of_two(a),
    ensures
        a > 0,
        x & !((a - 1) as usize) == x - x % a,
{
    let n = choose|n: nat| n < usize::BITS && pow2(n) == a;
    vstd::arithmetic::power2::lemma_pow2_pos(n);
    vstd::bits::lemma_usize_low_bits_mask_is_mod(x, n);
    let m = (a - 1) as usize;
    assert(low_bits_mask(n) as usize == m);
    assert(x & !m == x - (x & m)) by (bit_vector);
}

/// A free block: its first byte and its size in bytes, header included.
#[derive(Clone, Copy, Debug, PartialEq, Eq, Structural)]
pub struct FreeBlock {
    pub addr: usize,
    pub size: usize,
}

/// The address one past the last byte of `b`.
pub open spec fn block_end(b: FreeBlock) -> int {
    b.addr + b.size
}

/// Where an allocation of `align`-aligned memory would start in `b`: the
/// first multiple of `align` past the block's header.
pub open spec fn candidate_start(b: FreeBlock, align: usize) -> int {
    let x = b.addr + FREE_NODE_SIZE + align - 1;
    x - x % (align as int)
}

/// Where an allocation of `size` bytes would end in `b`.
pub open spec fn candidate_end(b: FreeBlock, size: usize, align: usize) -> int {
    candidate_start(b, align) + size
}

/// Whether an allocation of `size` bytes aligned to `align` fits in `b`,
/// below the end of the heap.
pub open spec fn block_fits(b: FreeBlock, size: usize, align: usize, heap_end: usize) -> bool {
    &&& candidate_end(b, size, align) <= heap_end
    &&& candidate_end(b, size, align) <= block_end(b)
}

/// Index of the first block from `i` on in which the allocation fits, or
/// the number of blocks if it fits in none of them.
pub open spec fn first_fit_from(
    blocks: Seq<FreeBlock>,
    size: usize,
    align: usize,
    heap_end: usize,
    i: int,
) -> int
    decreases blocks.len() - i,
{
    if i >= blocks.len() || i < 0 {
        blocks.len() as int
    } else if block_fits(blocks[i], size, align, heap_end) {
        i
    } else {
        first_fit_from(blocks, size, align, heap_end, i + 1)
    }
}

/// Index of the first block in which the allocation fits, or the number of
/// blocks if it fits in none.
pub open spec fn first_fit(blocks: Seq<FreeBlock>, size: usize, align: usize, heap_end: usize) -> int {
    first_fit_from(blocks, size, align, heap_end, 0)
}

/// The free list after an allocation has been cut from block `i`: what is
/// left past the allocation stays in the block's place when it is larger
/// than a header, else the whole block leaves the list.
pub open spec fn cut_block(blocks: Seq<FreeBlock>, i: int, size: usize, align: usize) -> Seq<FreeBlock> {
    let b = blocks[i];
    let end = candidate_end(b, size, align);
    let rest = block_end(b) - end;
    if rest > FREE_NODE_SIZE {
        blocks.update(i, FreeBlock { addr: end as usize, size: rest as usize })
    } else {
        blocks.remove(i)
    }
}

/// Whether the address arithmetic of the scan stays within `usize` for
/// block `b`.
pub open spec fn scan_in_range(b: FreeBlock, size: usize, align: usize) -> bool {
    &&& b.addr + FREE_NODE_SIZE + align <= usize::MAX
    &&& candidate_end(b, size, align) <= usize::MAX
}

/// Whether every block from `i` on lies inside `[heap_start, heap_end)`.
pub open spec fn blocks_in_heap(blocks: Seq<FreeBlock>, heap_start: usize, heap_end: usize) -> bool {
    forall|k: int|
        0 <= k < blocks.len() ==> heap_start <= (#[trigger] blocks[k]).addr && block_end(blocks[k])
            <= heap_end
}

/// Whether the byte ranges `[a, a + n)` and `[b, b + m)` share no byte.
pub open spec fn ranges_disjoint(a: int, n: int, b: int, m: int) -> bool {
    n == 0 || m == 0 || a + n <= b || b + m <= a
}

/// Whether no two free blocks share a byte.
pub open spec fn blocks_disjoint(blocks: Seq<FreeBlock>) -> bool {
    forall|j: int, k: int|
        0 <= j < blocks.len() && 0 <= k < blocks.len() && j != k ==> ranges_disjoint(
            (#[trigger] blocks[j]).addr as int,
            blocks[j].size as int,
            (#[trigger] blocks[k]).addr as int,
            blocks[k].size as int,
        )
}

/// Whether the byte range `[addr, addr + size)` shares no byte with any
/// free block.
pub open spec fn disjoint_from_blocks(blocks: Seq<FreeBlock>, addr: int, size: int) -> bool {
    forall|k: int|
        0 <= k < blocks.len() ==> ranges_disjoint(
            addr,
            size,
            (#[trigger] blocks[k]).addr as int,
            blocks[k].size as int,
        )
}

/// The number of free bytes: the sizes of the free blocks added up.
pub open spec fn free_bytes(blocks: Seq<FreeBlock>) -> int
    decreases blocks.len(),
{
    if blocks.len() == 0 {
        0
    } else {
        blocks[0].size + free_bytes(blocks.drop_first())
    }
}

/// Replacing block `i` changes the free bytes by the difference of sizes.
proof fn lemma_free_bytes_update(blocks: Seq<FreeBlock>, i: int, b: FreeBlock)
    requires
        0 <= i < blocks.len(),
    ensures
        free_bytes(blocks.update(i, b)) == free_bytes(blocks) - blocks[i].size + b.size,
    decreases blocks.len(),
{
    if i > 0 {
        lemma_free_bytes_update(blocks.drop_first(), i - 1, b);
        assert(blocks.update(i, b).drop_first() =~= blocks.drop_first().update(i - 1, b));
    } else {
        assert(blocks.update(i, b).drop_first() =~= blocks.drop_first());
    }
}

/// Removing block `i` takes its size from the free bytes.
proof fn lemma_free_bytes_remove(blocks: Seq<FreeBlock>, i: int)
    requires
        0 <= i < blocks.len(),
    ensures
        free_bytes(blocks.remove(i)) == free_bytes(blocks) - blocks[i].size,
    decreases blocks.len(),
{
    if i > 0 {
        lemma_free_bytes_remove(blocks.drop_first(), i - 1);
        assert(blocks.remove(i).drop_first() =~= blocks.drop_first().remove(i - 1));
    } else {
        assert(blocks.remove(i) =~= blocks.drop_first());
    }
}

/// The heap allocator: the bounds of the heap and its free list.
pub struct FreeListAllocator {
    blocks: Vec<FreeBlock>,
    heap_start: usize,
    heap_end: usize,
}

impl FreeListAllocator {
    /// The free blocks, in list order, the head first.
    pub closed spec fn free_blocks(&self) -> Seq<FreeBlock> {
        self.blocks@
    }

    /// The first byte of the heap.
    pub closed spec fn start(&self) -> usize {
        self.heap_start
    }

    /// The address one past the last byte of the heap.
    pub closed spec fn end(&self) -> usize {
        self.heap_end
    }

    /// The allocator's invariant: every free block lies inside the heap.
    pub open spec fn wf(&self) -> bool {
        &&& self.start() <= self.end()
        &&& blocks_in_heap(self.free_blocks(), self.start(), self.end())
    }

    /// Whether `allocate(size, align)` can compute its addresses without
    /// leaving `usize`: true of every block that the first-fit scan visits.
    pub open spec fn alloc_in_range(&self, size: usize, align: usize) -> bool {
        forall|i: int|
            0 <= i < self.free_blocks().len() && i <= first_fit(
                self.free_blocks(),
                size,
                align,
                self.end(),
            ) ==> scan_in_range(#[trigger] self.free_blocks()[i], size, align)
    }

    /// The free blocks, in list order, the head first.
    pub fn blocks(&self) -> (v: Vec<FreeBlock>)
        ensures
            v@ == self.free_blocks(),
    {
        self.blocks.clone()
    }

    /// The first byte of the heap.
    pub fn heap_start(&self) -> (a: usize)
        ensures
            a == self.start(),
    {
        self.heap_start
    }

    /// The address one past the last byte of the heap.
    pub fn heap_end(&self) -> (a: usize)
        ensures
            a == self.end(),
    {
        self.heap_end
    }

    /// Whether `allocate(size, align)` can compute its addresses without
    /// leaving `usize`.
    pub fn can_allocate(&self, size: usize, align: usize) -> (b: bool)
        requires
            self.wf(),
            is_power_of_two(align),
        ensures
            b == self.alloc_in_range(size, align),
    {
        let ghost blocks = self.blocks@;
        let heap_end = self.heap_end;
        let mut i: usize = 0;
        proof {
            lemma_mask_rounds_down(0, align);
        }
        while i < self.blocks.len()
            invariant
                blocks == self.blocks@,
                heap_end == self.heap_end,
                self.wf(),
                is_power_of_two(align),
                align > 0,
                i <= blocks.len(),
                first_fit(blocks, size, align, heap_end) == first_fit_from(
                    blocks,
                    size,
                    align,
                    heap_end,
                    i as int,
                ),
                forall|k: int| 0 <= k < i ==> scan_in_range(#[trigger] blocks[k], size, align),
            decreases blocks.len() - i,
        {
            let node = self.blocks[i];
            proof {
                lemma_first_fit_from_bound(blocks, size, align, heap_end, i as int);
            }
            if align > usize::MAX - FREE_NODE_SIZE || node.addr > usize::MAX - FREE_NODE_SIZE - align {
                assert(!scan_in_range(self.free_blocks()[i as int], size, align));
                return false;
            }
            proof {
                lemma_mask_rounds_down((node.addr + FREE_NODE_SIZE + align - 1) as usize, align);
            }
            let alloc_start = (node.addr + FREE_NODE_SIZE + align - 1) & !(align - 1);
            if alloc_start > usize::MAX - size {
                assert(!scan_in_range(self.free_blocks()[i as int], size, align));
                return false;
            }
            let alloc_end = alloc_start + size;
            if alloc_end <= heap_end && alloc_end <= node.addr + node.size {
                proof {
                    assert forall|k: int|
                        0 <= k < blocks.len() && k <= first_fit(blocks, size, align, heap_end)
                        implies scan_in_range(#[trigger] blocks[k], size, align) by {}
                }
                return true;
            }
            i = i + 1;
        }
        true
    }

    pub fn new() -> (a: FreeListAllocator)
        ensures
            a.wf(),
            a.free_blocks() == Seq::<FreeBlock>::empty(),
            a.start() == 0,
            a.end() == 0,
    {
        FreeListAllocator { blocks: Vec::new(), heap_start: 0, heap_end: 0 }
    }

    /// Hands the heap `[heap_start, heap_start + heap_size)` to the
    /// allocator: the free list becomes the single block that covers it.
    pub fn init(&mut self, heap_start: usize, heap_size: usize)
        requires
            heap_start + heap_size <= usize::MAX,
        ensures
            final(self).wf(),
            final(self).start() == heap_start,
            final(self).end() == heap_start + heap_size,
            final(self).free_blocks() == seq![FreeBlock { addr: heap_start, size: heap_size }],
    {
        self.heap_start = heap_start;
        self.heap_end = heap_start + heap_size;
        let mut blocks: Vec<FreeBlock> = Vec::new();
        blocks.push(FreeBlock { addr: heap_start, size: heap_size });
        self.blocks = blocks;
    }

    /// The first block from the head in which `size` bytes aligned to
    /// `align` fit gives the allocation: it starts at the first multiple of
    /// `align` past the block's header. The rest of the block past the
    /// allocation takes the block's place in the list when it is larger
    /// than a header; else the block leaves the list. `None` (the null
    /// pointer) when the allocation fits in no block.
    pub fn allocate(&mut self, size: usize, align: usize) -> (r: Option<usize>)
        requires
            old(self).wf(),
            is_power_of_two(align),
            old(self).alloc_in_range(size, align),
        ensures
            final(self).wf(),
            final(self).start() == old(self).start(),
            final(self).end() == old(self).end(),
            ({
                let blocks = old(self).free_blocks();
                let i = first_fit(blocks, size, align, old(self).end());
                if i == blocks.len() {
                    &&& r is None
                    &&& final(self).free_blocks() == blocks
                } else {
                    &&& r == Some(candidate_start(blocks[i], align) as usize)
                    &&& final(self).free_blocks() == cut_block(blocks, i, size, align)
                }
            }),
            r matches Some(p) ==> {
                &&& p as int % align as int == 0
                &&& old(self).start() + FREE_NODE_SIZE <= p
                &&& p + size <= old(self).end()
                &&& exists|i: int|
                    0 <= i < old(self).free_blocks().len() && (#[trigger] old(
                        self,
                    ).free_blocks()[i]).addr + FREE_NODE_SIZE <= p && p + size <= block_end(
                        old(self).free_blocks()[i],
                    )
            },
            blocks_disjoint(old(self).free_blocks()) ==> blocks_disjoint(final(self).free_blocks()),
            r is Some ==> free_bytes(final(self).free_blocks()) + size <= free_bytes(
                old(self).free_blocks(),
            ),
            r is None ==> free_bytes(final(self).free_blocks()) == free_bytes(
                old(self).free_blocks(),
            ),
            r matches Some(p) ==> (blocks_disjoint(old(self).free_blocks()) ==> disjoint_from_blocks(
                final(self).free_blocks(),
                p as int,
                size as int,
            )),
    {
        let ghost blocks0 = self.blocks@;
        let heap_end = self.heap_end;
        let mut i: usize = 0;
        while i < self.blocks.len()
            invariant
                self.blocks@ == blocks0,
                self.heap_end == heap_end,
                old(self).heap_end == heap_end,
                self.heap_start == old(self).heap_start,
                self.blocks@ == old(self).blocks@,
                old(self).wf(),
                is_power_of_two(align),
                old(self).alloc_in_range(size, align),
                i <= blocks0.len(),
                first_fit(blocks0, size, align, heap_end) == first_fit_from(
                    blocks0,
                    size,
                    align,
                    heap_end,
                    i as int,
                ),
            decreases blocks0.len() - i,
        {
            let node = self.blocks[i];
            proof {
                lemma_first_fit_from_bound(blocks0, size, align, heap_end, i as int);
                assert(scan_in_range(old(self).free_blocks()[i as int], size, align));
                lemma_mask_rounds_down((node.addr + FREE_NODE_SIZE + align - 1) as usize, align);
            }
            let alloc_start = (node.addr + FREE_NODE_SIZE + align - 1) & !(align - 1);
            let alloc_end = alloc_start + size;
            if alloc_end > heap_end || alloc_end > node.addr + node.size {
                i = i + 1;
            } else {
                let remaining_size = (node.addr + node.size) - alloc_end;
                if remaining_size > FREE_NODE_SIZE {
                    self.blocks.set(i, FreeBlock { addr: alloc_end, size: remaining_size });
                } else {
                    self.blocks.remove(i);
                }
                proof {
                    assert(block_fits(blocks0[i as int], size, align, heap_end));
                    lemma_cut_block(blocks0, i as int, size, align, heap_end);
                    if remaining_size > FREE_NODE_SIZE {
                        lemma_free_bytes_update(
                            blocks0,
                            i as int,
                            FreeBlock { addr: alloc_end, size: remaining_size },
                        );
                    } else {
                        lemma_free_bytes_remove(blocks0, i as int);
                    }
                    let nb = self.blocks@;
                    assert forall|k: int| 0 <= k < nb.len() implies old(self).heap_start <= (
                    #[trigger] nb[k]).addr && block_end(nb[k]) <= heap_end by {
                        if remaining_size <= FREE_NODE_SIZE && k >= i {
                            assert(nb[k] == blocks0[k + 1]);
                        }
                    }
                }
                return Some(alloc_start);
            }
        }
        None
    }

    /// Puts the block `[ptr, ptr + size)` back at the head of the free
    /// list; the alignment it was allocated with plays no part.
    pub fn dealloc(&mut self, ptr: usize, size: usize, align: usize)
        requires
            old(self).wf(),
            old(self).start() <= ptr,
            ptr + size <= old(self).end(),
        ensures
            final(self).wf(),
            final(self).start() == old(self).start(),
            final(self).end() == old(self).end(),
            final(self).free_blocks() == seq![FreeBlock { addr: ptr, size }] + old(
                self,
            ).free_blocks(),
            blocks_disjoint(old(self).free_blocks()) && disjoint_from_blocks(
                old(self).free_blocks(),
                ptr as int,
                size as int,
            ) ==> blocks_disjoint(final(self).free_blocks()),
            free_bytes(final(self).free_blocks()) == free_bytes(old(self).free_blocks()) + size,
    {
        self.blocks.insert(0, FreeBlock { addr: ptr, size });
        proof {
            let nb = self.blocks@;
            assert(nb =~= seq![FreeBlock { addr: ptr, size }] + old(self).blocks@);
            assert forall|k: int| 0 <= k < nb.len() implies self.heap_start <= (
            #[trigger] nb[k]).addr && block_end(nb[k]) <= self.heap_end by {
                if k > 0 {
                    assert(nb[k] == old(self).blocks@[k - 1]);
                }
            }
            lemma_push_front_disjoint(old(self).blocks@, FreeBlock { addr: ptr, size });
            assert(nb.drop_first() =~= old(self).blocks@);
        }
    }
}

/// The first fit from `i` is `i` or later, and no later than the end.
proof fn lemma_first_fit_from_bound(
    blocks: Seq<FreeBlock>,
    size: usize,
    align: usize,
    heap_end: usize,
    i: int,
)
    requires
        0 <= i <= blocks.len(),
    ensures
        i <= first_fit_from(blocks, size, align, heap_end, i) <= blocks.len(),
    decreases blocks.len() - i,
{
    if i < blocks.len() && !block_fits(blocks[i], size, align, heap_end) {
        lemma_first_fit_from_bound(blocks, size, align, heap_end, i + 1);
    }
}

/// What the first-fit allocation from block `i` gives: an aligned range
/// past the block's header and inside it; and a free list that, if its
/// blocks shared no byte before, still shares none, with none of them
/// meeting the allocated range.
proof fn lemma_cut_block(blocks: Seq<FreeBlock>, i: int, size: usize, align: usize, heap_end: usize)
    requires
        0 <= i < blocks.len(),
        is_power_of_two(align),
        block_fits(blocks[i], size, align, heap_end),
    ensures
        candidate_start(blocks[i], align) % (align as int) == 0,
        blocks[i].addr + FREE_NODE_SIZE <= candidate_start(blocks[i], align),
        blocks_disjoint(blocks) ==> blocks_disjoint(cut_block(blocks, i, size, align)),
        blocks_disjoint(blocks) ==> disjoint_from_blocks(
            cut_block(blocks, i, size, align),
            candidate_start(blocks[i], align),
            size as int,
        ),
{
    let b = blocks[i];
    let a = align as int;
    let x = b.addr + FREE_NODE_SIZE + align - 1;
    let n = choose|n: nat| n < usize::BITS && pow2(n) == align;
    vstd::arithmetic::power2::lemma_pow2_pos(n);
    vstd::arithmetic::div_mod::lemma_fundamental_div_mod(x, a);
    vstd::arithmetic::div_mod::lemma_mod_bound(x, a);
    assert(x - x % a == a * (x / a));
    vstd::arithmetic::div_mod::lemma_mod_multiples_basic(x / a, a);
    assert((x / a) * a == a * (x / a)) by (nonlinear_arith);
    let start = candidate_start(b, align);
    let end = candidate_end(b, size, align);
    let nb = cut_block(blocks, i, size, align);
    if blocks_disjoint(blocks) {
        if block_end(b) - end > FREE_NODE_SIZE {
            assert forall|j: int, k: int|
                0 <= j < nb.len() && 0 <= k < nb.len() && j != k implies ranges_disjoint(
                (#[trigger] nb[j]).addr as int,
                nb[j].size as int,
                (#[trigger] nb[k]).addr as int,
                nb[k].size as int,
            ) by {
                assert(ranges_disjoint(
                    blocks[j].addr as int,
                    blocks[j].size as int,
                    blocks[k].addr as int,
                    blocks[k].size as int,
                ));
            }
            assert forall|k: int| 0 <= k < nb.len() implies ranges_disjoint(
                start,
                size as int,
                (#[trigger] nb[k]).addr as int,
                nb[k].size as int,
            ) by {
                if k != i {
                    assert(ranges_disjoint(
                        blocks[i].addr as int,
                        blocks[i].size as int,
                        blocks[k].addr as int,
                        blocks[k].size as int,
                    ));
                }
            }
        } else {
            assert forall|j: int, k: int|
                0 <= j < nb.len() && 0 <= k < nb.len() && j != k implies ranges_disjoint(
                (#[trigger] nb[j]).addr as int,
                nb[j].size as int,
                (#[trigger] nb[k]).addr as int,
                nb[k].size as int,
            ) by {
                let jj = if j < i { j } else { j + 1 };
                let kk = if k < i { k } else { k + 1 };
                assert(nb[j] == blocks[jj]);
                assert(nb[k] == blocks[kk]);
                assert(ranges_disjoint(
                    blocks[jj].addr as int,
                    blocks[jj].size as int,
                    blocks[kk].addr as int,
                    blocks[kk].size as int,
                ));
            }
            assert forall|k: int| 0 <= k < nb.len() implies ranges_disjoint(
                start,
                size as int,
                (#[trigger] nb[k]).addr as int,
                nb[k].size as int,
            ) by {
                let kk = if k < i { k } else { k + 1 };
                assert(nb[k] == blocks[kk]);
                assert(ranges_disjoint(
                    blocks[i].addr as int,
                    blocks[i].size as int,
                    blocks[kk].addr as int,
                    blocks[kk].size as int,
                ));
            }
        }
    }
}

/// A block that shares no byte with the free blocks, pushed on the front
/// of a list whose blocks share no byte, gives a list whose blocks share
/// no byte.
proof fn lemma_push_front_disjoint(blocks: Seq<FreeBlock>, b: FreeBlock)
    ensures
        blocks_disjoint(blocks) && disjoint_from_blocks(blocks, b.addr as int, b.size as int)
            ==> blocks_disjoint(seq![b] + blocks),
{
    let nb = seq![b] + blocks;
    if blocks_disjoint(blocks) && disjoint_from_blocks(blocks, b.addr as int, b.size as int) {
        assert forall|j: int, k: int|
            0 <= j < nb.len() && 0 <= k < nb.len() && j != k implies ranges_disjoint(
            (#[trigger] nb[j]).addr as int,
            nb[j].size as int,
            (#[trigger] nb[k]).addr as int,
            nb[k].size as int,
        ) by {
            if j == 0 {
                assert(nb[k] == blocks[k - 1]);
            } else if k == 0 {
                assert(nb[j] == blocks[j - 1]);
            } else {
                assert(nb[j] == blocks[j - 1]);
                assert(nb[k] == blocks[k - 1]);
            }
        }
    }
}

/// Copies the first `n` bytes of `src` over the first `n` bytes of `dest`.
pub fn memcpy(dest: &mut [u8], src: &[u8], n: usize)
    requires
        n <= old(dest)@.len(),
        n <= src@.len(),
    ensures
        final(dest)@ == src@.subrange(0, n as int) + old(dest)@.subrange(
            n as int,
            old(dest)@.len() as int,
        ),
{
    let mut i: usize = 0;
    while i < n
        invariant
            i <= n,
            n <= src@.len(),
            n <= old(dest)@.len(),
            dest@.len() == old(dest)@.len(),
            forall|k: int| 0 <= k < i ==> dest@[k] == src@[k],
            forall|k: int| i <= k < dest@.len() ==> dest@[k] == old(dest)@[k],
        decreases n - i,
    {
        dest[i] = src[i];
        i = i + 1;
    }
    assert(dest@ =~= src@.subrange(0, n as int) + old(dest)@.subrange(
        n as int,
        old(dest)@.len() as int,
    ));
}

/// Sets the first `n` bytes of `dest` to the low byte of `value`.
pub fn memset(dest: &mut [u8], value: i32, n: usize)
    requires
        n <= old(dest)@.len(),
    ensures
        final(dest)@.len() == old(dest)@.len(),
        forall|k: int| 0 <= k < n ==> final(dest)@[k] == value as u8,
        forall|k: int| n <= k < old(dest)@.len() ==> final(dest)@[k] == old(dest)@[k],
{
    let byte: u8 = value as u8;
    let mut i: usize = 0;
    while i < n
        invariant
            i <= n,
            byte == value as u8,
            dest@.len() == old(dest)@.len(),
            n <= dest@.len(),
            forall|k: int| 0 <= k < i ==> dest@[k] == byte,
            forall|k: int| i <= k < dest@.len() ==> dest@[k] == old(dest)@[k],
        decreases n - i,
    {
        dest[i] = byte;
        i = i + 1;
    }
}

/// An allocation takes at least its size from the free bytes: cutting it
/// from the first block where it fits leaves at most the free bytes less
/// its size.
pub proof fn lemma_allocation_takes_its_size(
    blocks: Seq<FreeBlock>,
    size: usize,
    align: usize,
    heap_end: usize,
)
    requires
        is_power_of_two(align),
        first_fit(blocks, size, align, heap_end) < blocks.len(),
    ensures
        free_bytes(
            cut_block(blocks, first_fit(blocks, size, align, heap_end), size, align),
        ) + size <= free_bytes(blocks),
{
    let i = first_fit(blocks, size, align, heap_end);
    lemma_first_fit_from_bound(blocks, size, align, heap_end, 0);
    lemma_first_fit_is_fit(blocks, size, align, heap_end, 0);
    lemma_cut_block(blocks, i, size, align, heap_end);
    let b = blocks[i];
    let end = candidate_end(b, size, align);
    if block_end(b) - end > FREE_NODE_SIZE {
        lemma_free_bytes_update(blocks, i, FreeBlock { addr: end as usize, size: (block_end(b) - end) as usize });
    } else {
        lemma_free_bytes_remove(blocks, i);
    }
}

/// Freeing what was just allocated never leaves more free bytes than
/// there were before the allocation: the header and alignment padding in
/// front of the allocation are not given back.
pub proof fn lemma_free_after_allocate(blocks: Seq<FreeBlock>, size: usize, align: usize, heap_end: usize)
    requires
        is_power_of_two(align),
        first_fit(blocks, size, align, heap_end) < blocks.len(),
    ensures
        ({
            let i = first_fit(blocks, size, align, heap_end);
            let p = candidate_start(blocks[i], align);
            free_bytes(seq![FreeBlock { addr: p as usize, size }] + cut_block(blocks, i, size, align))
                <= free_bytes(blocks)
        }),
{
    lemma_allocation_takes_its_size(blocks, size, align, heap_end);
    let i = first_fit(blocks, size, align, heap_end);
    let p = candidate_start(blocks[i], align);
    let nb = seq![FreeBlock { addr: p as usize, size }] + cut_block(blocks, i, size, align);
    assert(nb.drop_first() =~= cut_block(blocks, i, size, align));
}

/// The first fit from `i`, when it is a block, is a block where the
/// allocation fits.
proof fn lemma_first_fit_is_fit(blocks: Seq<FreeBlock>, size: usize, align: usize, heap_end: usize, i: int)
    requires
        0 <= i <= blocks.len(),
        first_fit_from(blocks, size, align, heap_end, i) < blocks.len(),
    ensures
        block_fits(blocks[first_fit_from(blocks, size, align, heap_end, i)], size, align, heap_end),
    decreases blocks.len() - i,
{
    if i < blocks.len() && !block_fits(blocks[i], size, align, heap_end) {
        lemma_first_fit_is_fit(blocks, size, align, heap_end, i + 1);
    }
}

} // verus!
