//! The kernel heap: a bump allocator for the first allocations, and then a
//! 16-byte block free list that grows by whole pages from the page allocator.
use vstd::prelude::*;

use crate::intrusive::{
    first_big, has_big, is_first_big, request_blocks, runs_ok, take_result, whole_blocks,
    Error as ListError, IntrusiveFreeList, Run,
};
use crate::layout::Layout;
use crate::pmm::{alloc_pages, pages_blocks, PageAllocator, PAGE_SIZE};
use vstd::layout::valid_layout;

verus! {

/// Errors of the kernel heap.
#[derive(Clone, Copy, Debug, PartialEq, Eq, Structural)]
pub enum Error {
    OutOfSpace,
}

impl Error {
    /// The text shown for the error.
    pub open spec fn text(&self) -> Seq<char> {
        "out of space"@
    }

    /// The text shown for the error.
    pub fn message(&self) -> (r: String)
        ensures
            r@ == self.text(),
    {
        String::from_str("out of space")
    }
}

/// The block size of the heap's free list.
pub const HEAP_BLOCK: usize = 16;

/// The heap's free list.
pub type HeapList = IntrusiveFreeList<16>;

/// The pages that a heap request of `size` bytes grows the heap by.
pub open spec fn growth_pages(size: usize) -> usize {
    ((size + PAGE_SIZE - 1) / (PAGE_SIZE as int)) as usize
}

/// The pages the heap grows by hold the request: `growth_pages(size)` pages
/// span at least `size` bytes, and one page fewer would not.
pub proof fn lemma_growth_pages(size: usize)
    requires
        size + PAGE_SIZE - 1 <= usize::MAX,
    ensures
        growth_pages(size) * PAGE_SIZE >= size,
        growth_pages(size) == 0 || (growth_pages(size) - 1) * PAGE_SIZE < size,
{
    let n: int = (size + 4095) / 4096;
    assert(n * 4096 >= size && (n == 0 || (n - 1) * 4096 < size) && n <= size) by (nonlinear_arith)
        requires
            n == (size + 4095) / 4096,
            size >= 0,
    ;
}

/// The heap's free list after growing by the pages taken from `pages`.
pub open spec fn grown_list(list: Seq<Run>, pages: Seq<Run>, size: usize) -> Seq<Run> {
    let k = first_big(pages, pages_blocks(growth_pages(size)));
    seq![
        Run {
            adr: pages[k].adr,
            blocks: whole_blocks((growth_pages(size) * PAGE_SIZE) as u64, HEAP_BLOCK as u64),
        },
    ] + list
}

/// Once the heap has grown by the pages of a request of `size` bytes (more
/// than none), its free list has a run that holds the request's blocks, at a
/// non-null address.
pub proof fn lemma_grown_list_serves(list: Seq<Run>, pages: Seq<Run>, size: usize)
    requires
        size > 0,
        size + PAGE_SIZE - 1 <= usize::MAX,
        growth_pages(size) * PAGE_SIZE <= usize::MAX,
        has_big(pages, pages_blocks(growth_pages(size))),
        runs_ok(list),
        runs_ok(pages),
    ensures
        runs_ok(grown_list(list, pages, size)),
        has_big(grown_list(list, pages, size), request_blocks(size, HEAP_BLOCK as u64)),
        grown_list(list, pages, size)[first_big(
            grown_list(list, pages, size),
            request_blocks(size, HEAP_BLOCK as u64),
        )].adr != 0,
{
    lemma_growth_pages(size);
    let n = growth_pages(size);
    let k = first_big(pages, pages_blocks(n));
    assert(is_first_big(pages, pages_blocks(n), k));
    assert(pages[k].adr != 0);
    let grown = grown_list(list, pages, size);
    let cnt = request_blocks(size, HEAP_BLOCK as u64);
    let nb: int = n * 4096;
    let q: int = n * 256;
    assert(nb == 16 * q);
    assert(nb / 16 == q) by {
        vstd::arithmetic::div_mod::lemma_div_multiples_vanish(q, 16);
    }
    assert((size + 15) / 16 <= q) by {
        vstd::arithmetic::div_mod::lemma_div_is_ordered((size + 15) as int, 16 * q + 15, 16);
        vstd::arithmetic::div_mod::lemma_div_multiples_vanish_fancy(q, 15, 16);
    }
    assert(grown[0].blocks == whole_blocks(nb as u64, 16));
    assert(cnt <= grown[0].blocks);
    assert(is_first_big(grown, cnt, 0));
    assert forall|i: int| 0 <= i < grown.len() implies (#[trigger] grown[i]).adr != 0 by {
        if i > 0 {
            assert(grown[i] == list[i - 1]);
        }
    }
    let j = first_big(grown, cnt);
    assert(is_first_big(grown, cnt, j));
}

/// What the page allocator must offer for the heap to grow by `size` bytes.
pub open spec fn growth_ok(list: Seq<Run>, pages: Seq<Run>, size: usize) -> bool {
    let n = growth_pages(size);
    let k = first_big(pages, pages_blocks(n));
    let grown = grown_list(list, pages, size);
    let cnt = request_blocks(size, HEAP_BLOCK as u64);
    &&& size + PAGE_SIZE - 1 <= usize::MAX
    &&& valid_layout((n * PAGE_SIZE) as usize, PAGE_SIZE)
    &&& n * PAGE_SIZE <= usize::MAX
    &&& n * PAGE_SIZE + HEAP_BLOCK - 1 <= u64::MAX
    &&& has_big(pages, pages_blocks(n))
    &&& pages[k].adr + pages_blocks(n) * PAGE_SIZE <= u64::MAX
    &&& pages[k].adr % (HEAP_BLOCK as u64) == 0
    &&& has_big(grown, cnt) ==> grown[first_big(grown, cnt)].adr + cnt * HEAP_BLOCK <= u64::MAX
}

/// Allocates `layout` from the heap's free list; when the list has no run
/// large enough, grows it by the pages the request needs and tries once more.
/// Returns the address, or `0` when the request cannot be met.
pub fn free_list_alloc(list: &mut HeapList, pages: &mut PageAllocator, layout: Layout) -> (r: u64)
    requires
        old(list).wf(),
        old(pages).wf(),
        layout.align() <= HEAP_BLOCK ==> {
            let cnt = request_blocks(layout.size(), HEAP_BLOCK as u64);
            &&& (if layout.size() == 0 { 1 } else { layout.size() as int }) + HEAP_BLOCK - 1 <= u64::MAX
            &&& has_big(old(list)@, cnt) ==> old(list)@[first_big(old(list)@, cnt)].adr + cnt
                * HEAP_BLOCK <= u64::MAX
            &&& !has_big(old(list)@, cnt) ==> growth_ok(old(list)@, old(pages)@, layout.size())
        },
    ensures
        final(list).wf(),
        final(pages).wf(),
        layout.align() > HEAP_BLOCK ==> r == 0 && final(list)@ == old(list)@ && final(pages)@ == old(
            pages,
        )@,
        layout.align() <= HEAP_BLOCK ==> {
            let cnt = request_blocks(layout.size(), HEAP_BLOCK as u64);
            let k = first_big(old(list)@, cnt);
            &&& has_big(old(list)@, cnt) ==> r == old(list)@[k].adr && final(list)@ == take_result(
                old(list)@,
                cnt,
                k,
                HEAP_BLOCK as u64,
            ) && final(pages)@ == old(pages)@
            &&& !has_big(old(list)@, cnt) ==> {
                let n = growth_pages(layout.size());
                let grown = grown_list(old(list)@, old(pages)@, layout.size());
                &&& final(pages)@ == take_result(
                    old(pages)@,
                    pages_blocks(n),
                    first_big(old(pages)@, pages_blocks(n)),
                    PAGE_SIZE as u64,
                )
                &&& has_big(grown, cnt) ==> r == grown[first_big(grown, cnt)].adr && final(list)@
                    == take_result(grown, cnt, first_big(grown, cnt), HEAP_BLOCK as u64)
                &&& !has_big(grown, cnt) ==> r == 0 && final(list)@ == grown
            }
        },
        layout.align() <= HEAP_BLOCK && layout.size() > 0 ==> r != 0,
{
    proof {
        if layout.align() <= HEAP_BLOCK && layout.size() > 0 {
            let cnt = request_blocks(layout.size(), HEAP_BLOCK as u64);
            if has_big(list@, cnt) {
                assert(is_first_big(list@, cnt, first_big(list@, cnt)));
            } else {
                lemma_grown_list_serves(list@, pages@, layout.size());
            }
        }
    }
    match list.alloc_layout(layout) {
        Ok(ok) => ok,
        Err(ListError::InsufficientSpace) => {
            let size = layout.size();
            let page_cnt = (size + (PAGE_SIZE - 1)) / PAGE_SIZE;
            let allocated = alloc_pages(pages, page_cnt);
            let vadr = allocated.virt();
            list.push_region_unchecked(vadr.adr(), page_cnt * PAGE_SIZE);
            match list.alloc_layout(layout) {
                Ok(ok) => ok,
                Err(_) => 0,
            }
        },
        Err(_) => 0,
    }
}

/// Gives the blocks of `layout` at `ptr` back to the heap's free list.
pub fn free_list_free(list: &mut HeapList, ptr: u64, layout: Layout)
    requires
        old(list).wf(),
        ptr != 0,
        (if layout.size() == 0 { 1 } else { layout.size() as int }) + HEAP_BLOCK - 1 <= u64::MAX,
        crate::intrusive::free_safe(
            old(list)@,
            ptr,
            request_blocks(layout.size(), HEAP_BLOCK as u64),
            HEAP_BLOCK as u64,
        ),
    ensures
        final(list).wf(),
        final(list)@ == crate::intrusive::free_result(
            old(list)@,
            ptr,
            request_blocks(layout.size(), HEAP_BLOCK as u64),
            HEAP_BLOCK as u64,
        ),
{
    list.free_layout(ptr, layout);
}

/// `x` rounded up to a multiple of `a`.
pub open spec fn round_up(x: int, a: int) -> int {
    if x % a == 0 {
        x
    } else {
        x + (a - x % a)
    }
}

/// Rounding up gives a multiple of `a` at or above `x`, less than `a` above it.
pub proof fn lemma_round_up(x: int, a: int)
    requires
        a > 0,
        x >= 0,
    ensures
        round_up(x, a) % a == 0,
        x <= round_up(x, a) < x + a,
{
    vstd::arithmetic::div_mod::lemma_fundamental_div_mod(x, a);
    vstd::arithmetic::div_mod::lemma_mod_pos_bound(x, a);
    if x % a != 0 {
        let q = x / a;
        assert(round_up(x, a) == (q + 1) * a) by (nonlinear_arith)
            requires
                x == a * q + x % a,
                round_up(x, a) == x + (a - x % a),
        ;
        vstd::arithmetic::div_mod::lemma_mod_multiples_basic(q + 1, a);
    }
}

/// No multiple of `a` at or above `x` lies below the rounded-up value.
pub proof fn lemma_round_up_least(x: int, a: int, m: int)
    requires
        a > 0,
        x >= 0,
        m >= x,
        m % a == 0,
    ensures
        m >= round_up(x, a),
{
    vstd::arithmetic::div_mod::lemma_fundamental_div_mod(x, a);
    vstd::arithmetic::div_mod::lemma_mod_pos_bound(x, a);
    if x % a != 0 {
        let q = x / a;
        assert(round_up(x, a) == (q + 1) * a) by (nonlinear_arith)
            requires
                x == a * q + x % a,
                round_up(x, a) == x + (a - x % a),
        ;
        vstd::arithmetic::div_mod::lemma_fundamental_div_mod(m, a);
        let qm = m / a;
        assert(m == a * qm);
        assert(qm >= q + 1) by (nonlinear_arith)
            requires
                a * qm >= a * q + x % a,
                x % a > 0,
                a > 0,
        ;
        assert(m >= (q + 1) * a) by (nonlinear_arith)
            requires
                qm >= q + 1,
                a > 0,
                m == a * qm,
        ;
    }
}

/// The number of pages the bump allocator starts with.
pub const PRIMORDIAL_PAGES: usize = 8;

/// The bump allocator for the heap's first allocations: the next free
/// address, the bytes left, and whether its pages have been taken yet.
pub struct PrimordialAlloc {
    ptr: u64,
    size: usize,
    is_init: bool,
}

impl PrimordialAlloc {
    pub closed spec fn spec_ptr(&self) -> u64 {
        self.ptr
    }

    pub closed spec fn spec_size(&self) -> usize {
        self.size
    }

    pub closed spec fn spec_is_init(&self) -> bool {
        self.is_init
    }

    /// A bump allocator that has not taken its pages yet.
    pub fn new() -> (r: Self)
        ensures
            r.spec_ptr() == 0,
            r.spec_size() == 0,
            !r.spec_is_init(),
    {
        PrimordialAlloc { ptr: 0, size: 0, is_init: false }
    }

    /// Whether the pages have been taken.
    pub fn is_init(&self) -> (r: bool)
        ensures
            r == self.spec_is_init(),
    {
        self.is_init
    }

    /// The state after taking its pages, if it has not yet.
    pub open spec fn started(&self, pages: Seq<Run>) -> (u64, usize) {
        if self.spec_is_init() {
            (self.spec_ptr(), self.spec_size())
        } else {
            (
                pages[first_big(pages, pages_blocks(PRIMORDIAL_PAGES))].adr,
                (PRIMORDIAL_PAGES * PAGE_SIZE) as usize,
            )
        }
    }

    /// Allocates `layout` by moving the next free address up to the
    /// alignment and then past the request; the pages are taken on the first
    /// call. Returns the address, or `0` when too few bytes are left (the
    /// alignment step is kept even then).
    pub fn allocate(&mut self, pages: &mut PageAllocator, layout: Layout) -> (r: u64)
        requires
            old(pages).wf(),
            !old(self).spec_is_init() ==> {
                &&& has_big(old(pages)@, pages_blocks(PRIMORDIAL_PAGES))
                &&& old(pages)@[first_big(old(pages)@, pages_blocks(PRIMORDIAL_PAGES))].adr
                    + pages_blocks(PRIMORDIAL_PAGES) * PAGE_SIZE <= u64::MAX
            },
            old(self).started(old(pages)@).0 + layout.align() + layout.size() <= u64::MAX,
        ensures
            final(pages).wf(),
            final(self).spec_is_init(),
            !old(self).spec_is_init() ==> final(pages)@ == take_result(
                old(pages)@,
                pages_blocks(PRIMORDIAL_PAGES),
                first_big(old(pages)@, pages_blocks(PRIMORDIAL_PAGES)),
                PAGE_SIZE as u64,
            ),
            old(self).spec_is_init() ==> final(pages)@ == old(pages)@,
            ({
                let (p0, s0) = old(self).started(old(pages)@);
                let p1 = round_up(p0 as int, layout.align() as int);
                let s1 = if s0 >= p1 - p0 { s0 - (p1 - p0) } else { 0 };
                &&& s1 == 0 || s1 < layout.size() ==> r == 0 && final(self).spec_ptr() == p1
                    && final(self).spec_size() == s1
                &&& !(s1 == 0 || s1 < layout.size()) ==> r == p1 && final(self).spec_ptr() == p1
                    + layout.size() && final(self).spec_size() == s1 - layout.size()
            }),
    {
        if !self.is_init {
            let pages_count = PRIMORDIAL_PAGES;
            self.size = pages_count * PAGE_SIZE;
            proof {
                vstd::arithmetic::power2::lemma2_to64();
                assert(valid_layout((PRIMORDIAL_PAGES * PAGE_SIZE) as usize, PAGE_SIZE)) by {
                    reveal(vstd::arithmetic::power2::is_pow2);
                    reveal_with_fuel(vstd::arithmetic::power2::is_pow2, 13);
                }
            }
            self.ptr = alloc_pages(pages, pages_count).virt().adr();
            self.is_init = true;
        }
        let align = layout.align() as u64;
        let ghost p0 = self.ptr;
        let ghost s0 = self.size;
        proof {
            lemma_round_up(p0 as int, align as int);
        }
        while self.ptr % align != 0
            invariant
                align == layout.align(),
                align > 0,
                p0 <= self.ptr <= round_up(p0 as int, align as int),
                p0 + align <= u64::MAX + 1,
                (self.ptr - p0) < align,
                self.size == if s0 >= self.ptr - p0 { s0 - (self.ptr - p0) } else { 0 },
                (self.ptr as int) % (align as int) == 0 ==> self.ptr == round_up(p0 as int, align as int),
                self.is_init,
            decreases round_up(p0 as int, align as int) - self.ptr,
        {
            proof {
                lemma_round_up(p0 as int, align as int);
                assert(self.ptr < round_up(p0 as int, align as int));
            }
            self.ptr = self.ptr + 1;
            self.size = if self.size > 0 { self.size - 1 } else { 0 };
            proof {
                lemma_round_up(p0 as int, align as int);
                if (self.ptr as int) % (align as int) == 0 {
                    lemma_round_up_least(p0 as int, align as int, self.ptr as int);
                }
            }
        }
        if self.size == 0 || self.size < layout.size() {
            return 0;
        }
        let ptr = self.ptr;
        self.size = self.size - layout.size();
        self.ptr = self.ptr + layout.size() as u64;
        ptr
    }

    /// Frees nothing: the bump allocator never reuses memory.
    pub fn deallocate(&mut self, ptr: u64, layout: Layout)
        ensures
            final(self).spec_ptr() == old(self).spec_ptr(),
            final(self).spec_size() == old(self).spec_size(),
            final(self).spec_is_init() == old(self).spec_is_init(),
    {
    }
}

} // verus!
