//! The kernel's page-block heap: a run of equal blocks after a table that
//! records, for each block, whether it is free.
use vstd::prelude::*;

verus! {

/// The size of one heap block: a kernel page.
pub const BLOCK_SIZE: usize = 4096;

/// The number of blocks the heap manages.
pub const HEAP_BLOCK_COUNT: usize = 16384;

/// The state of one block: `0` free, `1` allocated.
#[derive(Clone, Copy, Debug, PartialEq, Eq, Structural)]
pub struct BlockDesc(pub u8);

impl BlockDesc {
    /// A free block.
    pub fn new_free() -> (r: Self)
        ensures
            r.0 == 0,
    {
        BlockDesc(0)
    }

    /// An allocated block.
    pub fn new_allocated() -> (r: Self)
        ensures
            r.0 == 1,
    {
        BlockDesc(1)
    }

    /// Whether the block is free.
    pub fn is_free(&self) -> (r: bool)
        ensures
            r == (self.0 == 0),
    {
        self.0 == 0
    }
}

/// Whether each block is free.
pub open spec fn free_map(d: Seq<BlockDesc>) -> Seq<bool> {
    Seq::new(d.len(), |i: int| d[i].0 == 0)
}

/// Blocks `start .. start + count` exist and are free.
pub open spec fn window_free(v: Seq<bool>, start: int, count: int) -> bool {
    &&& 0 <= start < v.len()
    &&& start + count <= v.len()
    &&& forall|i: int| start <= i < start + count ==> #[trigger] v[i]
}

/// `start` is the lowest block at which `count` free blocks begin.
pub open spec fn is_first_window(v: Seq<bool>, start: int, count: int) -> bool {
    &&& window_free(v, start, count)
    &&& forall|s: int| 0 <= s < start ==> !window_free(v, s, count)
}

pub open spec fn has_window(v: Seq<bool>, count: int) -> bool {
    exists|s: int| window_free(v, s, count)
}

pub open spec fn first_window(v: Seq<bool>, count: int) -> int {
    choose|s: int| is_first_window(v, s, count)
}

/// The blocks needed for `size` bytes.
pub open spec fn blocks_for_size(size: usize) -> int {
    (size as int) / (BLOCK_SIZE as int) + if (size as int) % (BLOCK_SIZE as int) != 0 { 1int } else { 0int }
}

/// The map with blocks `start .. start + count` set to `free`.
pub open spec fn mark(v: Seq<bool>, start: int, count: int, free: bool) -> Seq<bool> {
    Seq::new(v.len(), |i: int| if start <= i < start + count { free } else { v[i] })
}

/// Marking blocks allocated and then free again gives back a map whose
/// blocks were free there.
pub proof fn lemma_alloc_then_free(v: Seq<bool>, start: int, count: int)
    requires
        window_free(v, start, count),
    ensures
        mark(mark(v, start, count, false), start, count, true) == v,
{
    assert(mark(mark(v, start, count, false), start, count, true) =~= v);
}

/// The heap: `block_count` blocks of `BLOCK_SIZE` bytes starting at address
/// `block_offset`, and one descriptor per block.
pub struct Heap {
    block_offset: usize,
    block_desc: Vec<BlockDesc>,
    block_count: usize,
}

impl Heap {
    pub open spec fn wf(&self) -> bool {
        &&& self.desc_len() == self.spec_block_count()
        &&& self.spec_block_offset() + self.spec_block_count() * BLOCK_SIZE <= usize::MAX
    }

    pub closed spec fn desc_len(&self) -> nat {
        self.block_desc@.len()
    }

    pub closed spec fn spec_block_offset(&self) -> usize {
        self.block_offset
    }

    pub closed spec fn spec_block_count(&self) -> usize {
        self.block_count
    }

    /// Whether each block is free.
    pub closed spec fn free_blocks(&self) -> Seq<bool> {
        free_map(self.block_desc@)
    }

    /// A heap on the kernel work memory at `kwm_start`, of `kwm_len` bytes:
    /// the descriptor table first, the blocks after it, all free.
    pub fn init(kwm_start: usize, kwm_len: usize) -> (r: Heap)
        requires
            kwm_start % BLOCK_SIZE == 0,
            HEAP_BLOCK_COUNT * BLOCK_SIZE + HEAP_BLOCK_COUNT < kwm_len,
            kwm_start + kwm_len <= usize::MAX + 1,
        ensures
            r.wf(),
            r.spec_block_count() == HEAP_BLOCK_COUNT,
            r.spec_block_offset() == kwm_start + HEAP_BLOCK_COUNT,
            r.free_blocks() == Seq::new(HEAP_BLOCK_COUNT as nat, |i: int| true),
    {
        let block_count = HEAP_BLOCK_COUNT;
        let mut block_desc: Vec<BlockDesc> = Vec::new();
        let mut i: usize = 0;
        while i < block_count
            invariant
                i <= block_count,
                block_count == HEAP_BLOCK_COUNT,
                block_desc@.len() == i,
                forall|j: int| 0 <= j < i ==> (#[trigger] block_desc@[j]).0 == 0,
            decreases block_count - i,
        {
            block_desc.push(BlockDesc::new_free());
            i = i + 1;
        }
        let r = Heap { block_offset: kwm_start + block_count, block_desc, block_count };
        proof {
            assert(r.free_blocks() =~= Seq::new(HEAP_BLOCK_COUNT as nat, |i: int| true));
        }
        r
    }

    /// The number of blocks.
    pub fn block_count(&self) -> (r: usize)
        ensures
            r == self.spec_block_count(),
    {
        self.block_count
    }

    /// The address of the first block.
    pub fn block_offset(&self) -> (r: usize)
        ensures
            r == self.spec_block_offset(),
    {
        self.block_offset
    }

    /// The index of the block that holds address `ptr`.
    pub fn ptr_to_index(&self, ptr: usize) -> (r: usize)
        requires
            self.wf(),
            self.spec_block_offset() <= ptr < self.spec_block_offset() + self.spec_block_count()
                * BLOCK_SIZE,
        ensures
            r == (ptr - self.spec_block_offset()) / (BLOCK_SIZE as int),
            r < self.spec_block_count(),
    {
        let p = ptr - self.block_offset;
        assert((p as int) / (BLOCK_SIZE as int) < self.block_count) by (nonlinear_arith)
            requires
                p < self.block_count * BLOCK_SIZE,
        ;
        p / BLOCK_SIZE
    }

    /// The address of block `index`.
    pub fn index_to_ptr(&self, index: usize) -> (r: usize)
        requires
            self.wf(),
            index < self.spec_block_count(),
        ensures
            r == self.spec_block_offset() + index * BLOCK_SIZE,
    {
        assert(index * BLOCK_SIZE <= self.block_count * BLOCK_SIZE) by (nonlinear_arith)
            requires
                index < self.block_count,
        ;
        self.block_offset + index * BLOCK_SIZE
    }

    /// The lowest block at which `count` free blocks begin, if any.
    pub fn find_empty_consecutive(&self, count: usize) -> (r: Option<usize>)
        requires
            self.wf(),
        ensures
            r is Some <==> has_window(self.free_blocks(), count as int),
            r matches Some(s) ==> is_first_window(self.free_blocks(), s as int, count as int),
    {
        let ghost v = self.free_blocks();
        let mut i: usize = 0;
        while i < self.block_count
            invariant
                self.wf(),
                v == self.free_blocks(),
                v.len() == self.spec_block_count(),
                i <= self.spec_block_count(),
                forall|s: int| 0 <= s < i ==> !window_free(v, s, count as int),
            decreases self.spec_block_count() - i,
        {
            let mut found: usize = 0;
            let start_index = i;
            while i < self.block_count && found < count && self.block_desc[i].is_free()
                invariant
                    self.wf(),
                    v == self.free_blocks(),
                    v.len() == self.spec_block_count(),
                    start_index <= i <= self.spec_block_count(),
                    found == i - start_index,
                    found <= count,
                    forall|j: int| start_index <= j < i ==> #[trigger] v[j],
                    forall|s: int| 0 <= s < start_index ==> !window_free(v, s, count as int),
                decreases self.spec_block_count() - i,
            {
                found = found + 1;
                i = i + 1;
            }
            if found >= count {
                proof {
                    if count == 0 {
                        assert(start_index < v.len());
                    }
                    assert(window_free(v, start_index as int, count as int));
                }
                return Some(start_index);
            }
            proof {
                // Every start in `start_index ..= i` sees a used block at `i` or runs past the end.
                assert forall|s: int| start_index <= s <= i && s < v.len() implies !window_free(
                    v,
                    s,
                    count as int,
                ) by {
                    if i < v.len() {
                        assert(!v[i as int]);
                        if s + count > i {
                        } else {
                            assert(s + count <= i);
                            assert(i - s <= found);
                        }
                    }
                }
            }
            if found == 0 {
                i = i + 1;
            }
        }
        proof {
            if has_window(v, count as int) {
                let w = choose|s: int| window_free(v, s, count as int);
                assert(window_free(v, w, count as int));
            }
        }
        None
    }

    /// The number of blocks that `size` bytes take.
    pub fn get_block_count_from_size(&self, size: usize) -> (r: usize)
        ensures
            r == blocks_for_size(size),
    {
        (size / BLOCK_SIZE) + if size % BLOCK_SIZE != 0 { 1 } else { 0 }
    }

    /// Allocates blocks for `size` bytes at the lowest place that has enough
    /// consecutive free blocks, and returns their address; `0` when there is
    /// no such place.
    pub fn allocate(&mut self, size: usize) -> (r: usize)
        requires
            old(self).wf(),
        ensures
            final(self).wf(),
            final(self).spec_block_count() == old(self).spec_block_count(),
            final(self).spec_block_offset() == old(self).spec_block_offset(),
            has_window(old(self).free_blocks(), blocks_for_size(size)) ==> {
                let s = first_window(old(self).free_blocks(), blocks_for_size(size));
                &&& r == old(self).spec_block_offset() + s * BLOCK_SIZE
                &&& final(self).free_blocks() == mark(
                    old(self).free_blocks(),
                    s,
                    blocks_for_size(size),
                    false,
                )
            },
            !has_window(old(self).free_blocks(), blocks_for_size(size)) ==> r == 0
                && final(self).free_blocks() == old(self).free_blocks(),
    {
        let allocated_blocks = self.get_block_count_from_size(size);
        match self.find_empty_consecutive(allocated_blocks) {
            Some(index) => {
                let ghost v = self.free_blocks();
                proof {
                    let f = first_window(v, allocated_blocks as int);
                    assert(is_first_window(v, f, allocated_blocks as int));
                    if f < index {
                        assert(!window_free(v, f, allocated_blocks as int));
                    } else if index < f {
                        assert(!window_free(v, index as int, allocated_blocks as int));
                    }
                }
                let mut i: usize = 0;
                while i < allocated_blocks
                    invariant
                        i <= allocated_blocks,
                        index + allocated_blocks <= self.desc_len(),
                        self.desc_len() == v.len(),
                        self.wf(),
                        self.spec_block_count() == old(self).spec_block_count(),
                        self.spec_block_offset() == old(self).spec_block_offset(),
                        index < self.spec_block_count(),
                        self.free_blocks() == mark(v, index as int, i as int, false),
                    decreases allocated_blocks - i,
                {
                    let ghost before = self.block_desc@;
                    self.block_desc.set(i + index, BlockDesc::new_allocated());
                    proof {
                        assert forall|j: int| 0 <= j < v.len() implies #[trigger] self.free_blocks()[j]
                            == mark(v, index as int, i + 1, false)[j] by {
                            if j != i + index {
                                assert(self.block_desc@[j] == before[j]);
                                assert(free_map(before)[j] == mark(v, index as int, i as int, false)[j]);
                            }
                        }
                        assert(self.free_blocks() =~= mark(v, index as int, i + 1, false));
                    }
                    i = i + 1;
                }
                self.index_to_ptr(index)
            },
            None => 0,
        }
    }

    /// Marks the blocks of `size` bytes at `ptr` free again.
    pub fn dealloc(&mut self, ptr: usize, size: usize)
        requires
            old(self).wf(),
            old(self).spec_block_offset() <= ptr < old(self).spec_block_offset() + old(
                self,
            ).spec_block_count() * BLOCK_SIZE,
            (ptr - old(self).spec_block_offset()) / (BLOCK_SIZE as int) + blocks_for_size(size)
                <= old(self).spec_block_count(),
        ensures
            final(self).wf(),
            final(self).spec_block_count() == old(self).spec_block_count(),
            final(self).spec_block_offset() == old(self).spec_block_offset(),
            final(self).free_blocks() == mark(
                old(self).free_blocks(),
                (ptr - old(self).spec_block_offset()) / (BLOCK_SIZE as int),
                blocks_for_size(size),
                true,
            ),
    {
        let index = self.ptr_to_index(ptr);
        let count = self.get_block_count_from_size(size);
        let ghost v = self.free_blocks();
        let mut i: usize = 0;
        while i < count
            invariant
                i <= count,
                index + count <= self.desc_len(),
                self.desc_len() == v.len(),
                self.wf(),
                self.spec_block_count() == old(self).spec_block_count(),
                self.spec_block_offset() == old(self).spec_block_offset(),
                self.free_blocks() == mark(v, index as int, i as int, true),
            decreases count - i,
        {
            let ghost before = self.block_desc@;
            self.block_desc.set(index + i, BlockDesc::new_free());
            proof {
                assert forall|j: int| 0 <= j < v.len() implies #[trigger] self.free_blocks()[j] == mark(
                    v,
                    index as int,
                    i + 1,
                    true,
                )[j] by {
                    if j != i + index {
                        assert(self.block_desc@[j] == before[j]);
                        assert(free_map(before)[j] == mark(v, index as int, i as int, true)[j]);
                    }
                }
                assert(self.free_blocks() =~= mark(v, index as int, i + 1, true));
            }
            i = i + 1;
        }
    }
}

/// Block `index`'s address leads back to `index`.
pub proof fn lemma_index_ptr_roundtrip(offset: int, index: int)
    requires
        offset >= 0,
        index >= 0,
    ensures
        (offset + index * BLOCK_SIZE - offset) / (BLOCK_SIZE as int) == index,
{
    assert((index * 4096) / 4096 == index) by (nonlinear_arith);
}

} // verus!
