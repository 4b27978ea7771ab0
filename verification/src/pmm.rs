//! The physical memory manager: pages handed out from a block free list of
//! page-sized blocks, addressed through the higher-half direct map (HHDM).
use vstd::prelude::*;

use crate::adr::{PhysAdr, VirtAdr};
use crate::intrusive::{
    whole_blocks, first_big, free_result, free_safe, has_big, request_blocks, take_result,
    take_fits, runs_disjoint, free_is_plain, covered_runs, is_first_big, lemma_take_then_free,
    IntrusiveFreeList, Run,
};
use crate::layout::Layout;
use vstd::layout::valid_layout;

verus! {

/// `log2` of the page size.
pub const PAGE_EXP: usize = 12;

/// The page size in bytes.
pub const PAGE_SIZE: usize = 4096;

/// The memory-map entry type of memory the kernel may use.
pub const MEMMAP_USABLE: u64 = 0;

/// The memory-map entry type of reserved memory.
pub const MEMMAP_RESERVED: u64 = 1;

/// The allocator of physical pages.
pub type PageAllocator = IntrusiveFreeList<4096>;

/// One page of memory.
pub struct Page {
    pub bytes: [u8; 4096],
}

/// `count` consecutive pages starting at (direct-mapped) address `ptr`.
#[derive(Clone, Copy, Debug, PartialEq, Eq, Structural)]
pub struct PagePtr {
    pub ptr: u64,
    pub count: usize,
}

/// The physical address of direct-mapped address `adr`.
pub fn hhdm_to_phys(adr: VirtAdr, hhdm_base: VirtAdr) -> (r: PhysAdr)
    requires
        adr.0 >= hhdm_base.0,
    ensures
        r.0 == adr.0 - hhdm_base.0,
{
    PhysAdr::new(adr.adr() - hhdm_base.adr())
}

/// The direct-mapped address of physical address `adr`.
pub fn phys_to_hhdm(adr: PhysAdr, hhdm_base: VirtAdr) -> (r: VirtAdr)
    requires
        adr.0 < hhdm_base.0,
        adr.0 + hhdm_base.0 <= u64::MAX,
    ensures
        r.0 == adr.0 + hhdm_base.0,
{
    VirtAdr::new(adr.adr() + hhdm_base.adr())
}

/// Mapping a physical address into the direct map and back gives it back.
pub proof fn lemma_hhdm_roundtrip(adr: u64, hhdm_base: u64)
    requires
        adr + hhdm_base <= u64::MAX,
    ensures
        ((adr + hhdm_base) as u64) - hhdm_base == adr,
{
}

/// The size in bytes of `count` pages, as the page allocator requests them.
pub open spec fn pages_bytes(count: usize) -> int {
    count * PAGE_SIZE
}

/// The blocks that allocating `count` pages takes: at least one.
pub open spec fn pages_blocks(count: usize) -> u64 {
    request_blocks((count * PAGE_SIZE) as usize, PAGE_SIZE as u64)
}

impl PagePtr {
    /// Pages at `ptr`.
    pub fn from_parts(ptr: u64, count: usize) -> (r: Self)
        ensures
            r.ptr == ptr,
            r.count == count,
    {
        PagePtr { ptr, count }
    }

    /// Pages at the direct-mapped address `ptr`.
    pub fn from_parts_hhdm(ptr: u64, count: usize) -> (r: Self)
        ensures
            r.ptr == ptr,
            r.count == count,
    {
        PagePtr { ptr, count }
    }

    /// The first page's address.
    pub fn ptr(&self) -> (r: u64)
        ensures
            r == self.ptr,
    {
        self.ptr
    }

    /// The number of pages.
    pub fn page_count(&self) -> (r: usize)
        ensures
            r == self.count,
    {
        self.count
    }

    /// The number of bytes, shifted as the page count is (bits shifted out are lost).
    pub fn byte_size(&self) -> (r: usize)
        ensures
            r == self.count << PAGE_EXP,
            self.count * PAGE_SIZE <= usize::MAX ==> r == self.count * PAGE_SIZE,
    {
        let c = self.count;
        proof {
            if c * 4096 <= usize::MAX {
                vstd::arithmetic::power2::lemma2_to64();
                vstd::bits::lemma_usize_shl_is_mul(c, 12);
            }
        }
        c << PAGE_EXP
    }

    /// The first page's direct-mapped address.
    pub fn virt(&self) -> (r: VirtAdr)
        ensures
            r.0 == self.ptr,
    {
        VirtAdr::new(self.ptr)
    }

    /// The first page's physical address.
    pub fn phys(&self, hhdm_base: VirtAdr) -> (r: PhysAdr)
        requires
            self.ptr >= hhdm_base.0,
        ensures
            r.0 == self.ptr - hhdm_base.0,
    {
        PhysAdr::new(self.ptr - hhdm_base.adr())
    }
}

/// Allocates `count` pages from `allocator`; the allocator must have a run of
/// enough pages.
pub fn alloc_pages(allocator: &mut PageAllocator, count: usize) -> (r: PagePtr)
    requires
        old(allocator).wf(),
        valid_layout((count * PAGE_SIZE) as usize, PAGE_SIZE),
        count * PAGE_SIZE <= usize::MAX,
        has_big(old(allocator)@, pages_blocks(count)),
        old(allocator)@[first_big(old(allocator)@, pages_blocks(count))].adr + pages_blocks(count)
            * PAGE_SIZE <= u64::MAX,
    ensures
        final(allocator).wf(),
        r.count == count,
        r.ptr == old(allocator)@[first_big(old(allocator)@, pages_blocks(count))].adr,
        final(allocator)@ == take_result(
            old(allocator)@,
            pages_blocks(count),
            first_big(old(allocator)@, pages_blocks(count)),
            PAGE_SIZE as u64,
        ),
{
    let layout = match Layout::from_size_align(count * PAGE_SIZE, PAGE_SIZE) {
        Some(l) => l,
        None => {
            proof {
                assert(false);
            }
            return PagePtr { ptr: 0, count };
        },
    };
    let alloc = match allocator.alloc_layout(layout) {
        Ok(a) => a,
        Err(_) => {
            proof {
                assert(false);
            }
            return PagePtr { ptr: 0, count };
        },
    };
    PagePtr { ptr: alloc, count }
}

/// Gives the pages of `pages` back to `allocator`.
pub fn free_pages(allocator: &mut PageAllocator, pages: PagePtr)
    requires
        old(allocator).wf(),
        pages.ptr != 0,
        valid_layout((pages.count * PAGE_SIZE) as usize, PAGE_SIZE),
        pages.count * PAGE_SIZE <= usize::MAX,
        free_safe(old(allocator)@, pages.ptr, pages_blocks(pages.count), PAGE_SIZE as u64),
    ensures
        final(allocator).wf(),
        final(allocator)@ == free_result(
            old(allocator)@,
            pages.ptr,
            pages_blocks(pages.count),
            PAGE_SIZE as u64,
        ),
{
    let ptr = pages.virt().adr();
    let count = pages.count;
    let layout = match Layout::from_size_align(count * PAGE_SIZE, PAGE_SIZE) {
        Some(l) => l,
        None => {
            proof {
                assert(false);
            }
            return ;
        },
    };
    allocator.free_layout(ptr, layout);
}

/// Allocating `count` pages and freeing them again leaves the allocator
/// covering exactly the addresses it covered before, unless the free stops
/// at an empty run.
pub proof fn lemma_alloc_pages_then_free(s: Seq<Run>, count: usize)
    requires
        has_big(s, pages_blocks(count)),
        take_fits(s, pages_blocks(count), first_big(s, pages_blocks(count)), PAGE_SIZE as u64),
        runs_disjoint(s, PAGE_SIZE as u64),
        free_safe(
            take_result(s, pages_blocks(count), first_big(s, pages_blocks(count)), PAGE_SIZE as u64),
            s[first_big(s, pages_blocks(count))].adr,
            pages_blocks(count),
            PAGE_SIZE as u64,
        ),
        free_is_plain(
            take_result(s, pages_blocks(count), first_big(s, pages_blocks(count)), PAGE_SIZE as u64),
            s[first_big(s, pages_blocks(count))].adr,
            pages_blocks(count),
            PAGE_SIZE as u64,
        ),
    ensures
        covered_runs(
            free_result(
                take_result(s, pages_blocks(count), first_big(s, pages_blocks(count)), PAGE_SIZE as u64),
                s[first_big(s, pages_blocks(count))].adr,
                pages_blocks(count),
                PAGE_SIZE as u64,
            ),
            PAGE_SIZE as u64,
        ) == covered_runs(s, PAGE_SIZE as u64),
{
    let k = first_big(s, pages_blocks(count));
    assert(is_first_big(s, pages_blocks(count), k));
    lemma_take_then_free(s, pages_blocks(count), k, PAGE_SIZE as u64);
}

/// One entry of the boot loader's memory map.
#[derive(Clone, Copy, Debug, PartialEq, Eq, Structural)]
pub struct MemmapEntry {
    pub base: u64,
    pub len: u64,
    pub typ: u64,
}

/// A usable entry whose memory the allocator can take.
pub open spec fn entry_ok(e: MemmapEntry, hhdm_base: u64) -> bool {
    e.typ == MEMMAP_USABLE ==> {
        &&& e.base < hhdm_base
        &&& e.base + hhdm_base <= u64::MAX
        &&& e.base + hhdm_base != 0
        &&& (e.base + hhdm_base) % (PAGE_SIZE as int) == 0
        &&& e.len <= usize::MAX
        &&& e.len % (PAGE_SIZE as u64) == 0
        &&& e.len + PAGE_SIZE - 1 <= u64::MAX
        &&& e.base + e.len <= u64::MAX
    }
}

/// The runs that the usable entries of `s` give, the last entry's first.
pub open spec fn usable_runs(s: Seq<MemmapEntry>, hhdm_base: u64) -> Seq<Run>
    decreases s.len(),
{
    if s.len() == 0 {
        Seq::empty()
    } else {
        let e = s.last();
        let rest = usable_runs(s.drop_last(), hhdm_base);
        if e.typ == MEMMAP_USABLE {
            seq![
                Run {
                    adr: (e.base + hhdm_base) as u64,
                    blocks: whole_blocks(e.len, PAGE_SIZE as u64),
                },
            ] + rest
        } else {
            rest
        }
    }
}

/// The highest end of a usable entry of `s`, or zero.
pub open spec fn highest_end(s: Seq<MemmapEntry>) -> int
    decreases s.len(),
{
    if s.len() == 0 {
        0
    } else {
        let e = s.last();
        let rest = highest_end(s.drop_last());
        if e.typ == MEMMAP_USABLE && e.base + e.len > rest {
            e.base + e.len
        } else {
            rest
        }
    }
}

/// `highest_end` is the maximum of `base + len` over the usable entries
/// alone: no usable entry ends above it, and it is either zero or the end of
/// some usable entry.
pub proof fn lemma_highest_end(s: Seq<MemmapEntry>)
    ensures
        highest_end(s) >= 0,
        forall|i: int|
            0 <= i < s.len() && (#[trigger] s[i]).typ == MEMMAP_USABLE ==> s[i].base + s[i].len
                <= highest_end(s),
        highest_end(s) == 0 || exists|i: int|
            0 <= i < s.len() && (#[trigger] s[i]).typ == MEMMAP_USABLE && highest_end(s) == s[i].base
                + s[i].len,
    decreases s.len(),
{
    if s.len() > 0 {
        let t = s.drop_last();
        lemma_highest_end(t);
        assert forall|i: int| 0 <= i < s.len() - 1 implies #[trigger] s[i] == t[i] by {}
        if highest_end(s) != 0 && highest_end(s) == highest_end(t) {
            let j = choose|j: int|
                0 <= j < t.len() && (#[trigger] t[j]).typ == MEMMAP_USABLE && highest_end(t) == t[j].base
                    + t[j].len;
            assert(s[j] == t[j]);
        }
        if highest_end(s) != highest_end(t) {
            assert(s[s.len() - 1] == s.last());
        }
    }
}

/// An entry that is not usable memory never changes `highest_end`: appending
/// one to the memory map leaves it as it was.
pub proof fn lemma_highest_end_ignores_unusable(s: Seq<MemmapEntry>, e: MemmapEntry)
    requires
        e.typ != MEMMAP_USABLE,
    ensures
        highest_end(s.push(e)) == highest_end(s),
{
    assert(s.push(e).drop_last() =~= s);
}

/// Hands every usable entry of the memory map to `allocator` and marks it
/// reserved; returns the number of pages up to the highest usable address.
/// There must be a usable entry.
pub fn init_regions(
    allocator: &mut PageAllocator,
    entries: &mut Vec<MemmapEntry>,
    hhdm_base: VirtAdr,
) -> (r: usize)
    requires
        old(allocator).wf(),
        exists|i: int| 0 <= i < old(entries)@.len() && (#[trigger] old(entries)@[i]).typ == MEMMAP_USABLE,
        forall|i: int| 0 <= i < old(entries)@.len() ==> entry_ok(#[trigger] old(entries)@[i], hhdm_base.0),
    ensures
        final(allocator).wf(),
        final(allocator)@ == usable_runs(old(entries)@, hhdm_base.0) + old(allocator)@,
        r == (highest_end(old(entries)@) as usize) / PAGE_SIZE,
        final(entries)@.len() == old(entries)@.len(),
        forall|i: int|
            0 <= i < old(entries)@.len() ==> (#[trigger] final(entries)@[i]) == (if old(entries)@[i].typ
                == MEMMAP_USABLE {
                MemmapEntry { typ: MEMMAP_RESERVED, ..old(entries)@[i] }
            } else {
                old(entries)@[i]
            }),
{
    let ghost orig = entries@;
    let mut found = false;
    let mut highest_adr: u64 = 0;
    let mut i: usize = 0;
    while i < entries.len()
        invariant
            allocator.wf(),
            i <= entries@.len(),
            entries@.len() == orig.len(),
            forall|j: int| 0 <= j < orig.len() ==> entry_ok(#[trigger] orig[j], hhdm_base.0),
            forall|j: int| i <= j < orig.len() ==> #[trigger] entries@[j] == orig[j],
            forall|j: int|
                0 <= j < i ==> (#[trigger] entries@[j]) == (if orig[j].typ == MEMMAP_USABLE {
                    MemmapEntry { typ: MEMMAP_RESERVED, ..orig[j] }
                } else {
                    orig[j]
                }),
            allocator@ == usable_runs(orig.subrange(0, i as int), hhdm_base.0) + old(allocator)@,
            highest_adr == highest_end(orig.subrange(0, i as int)),
            found == exists|j: int| 0 <= j < i && (#[trigger] orig[j]).typ == MEMMAP_USABLE,
        decreases orig.len() - i,
    {
        let entry = entries[i];
        proof {
            assert(orig.subrange(0, i + 1).drop_last() =~= orig.subrange(0, i as int));
            assert(orig.subrange(0, i + 1).last() == orig[i as int]);
            assert(entry_ok(orig[i as int], hhdm_base.0));
        }
        if entry.typ == MEMMAP_USABLE {
            let base = entry.base;
            let len = entry.len;
            let end_adr = base + len;
            if end_adr > highest_adr {
                highest_adr = end_adr;
            }
            found = true;
            let virt = phys_to_hhdm(PhysAdr::new(base), hhdm_base);
            let v = virt.adr();
            assert(v % 4096 == 0 ==> v % 8 == 0) by (bit_vector);
            allocator.push_region_unchecked(v, len as usize);
            entries.set(i, MemmapEntry { base: entry.base, len: entry.len, typ: MEMMAP_RESERVED });
        }
        i = i + 1;
    }
    proof {
        assert(orig.subrange(0, orig.len() as int) =~= orig);
        let w = choose|j: int| 0 <= j < orig.len() && (#[trigger] orig[j]).typ == MEMMAP_USABLE;
        assert(orig[w].typ == MEMMAP_USABLE);
    }
    if !found {
        proof {
            assert(false);
        }
        return 0;
    }
    highest_adr as usize / PAGE_SIZE
}

} // verus!
