//! The first form of an address space: small pages only, mapped onto given
//! physical memory. Writing the page tables is left to the caller, which
//! receives a `Mapping` describing what to write.
use vstd::prelude::*;

use crate::freelist::{
    address_limit, align_up, alloc_result, alloc_fits, alloc_safe, carve, carve_fits,
    first_container, first_fit, has_container, has_fit, FreeList, Node,
};
use crate::adr::floor_bits;

verus! {

/// The page size.
pub const PAGE_SIZE: usize = 4096;

/// The first address a user address space hands out.
pub const USERLAND_START: u64 = 0x10_0000;
/// The length of the range a user address space hands out: up to the top of
/// the lower half.
pub const USERLAND_LEN: u64 = 0x7FFF_FFF0_0000;

/// Page-table entry properties.
#[derive(Clone, Copy, Debug, PartialEq, Eq, Structural)]
pub struct PageFlags {
    pub present: bool,
    pub writable: bool,
    pub user: bool,
    pub no_execute: bool,
    pub size_large: bool,
    pub size_medium: bool,
}

/// What a mapping maps onto.
#[derive(Clone, Copy, Debug, PartialEq, Eq, Structural)]
pub enum Flags {
    /// Physical memory at `phys`, with entries of properties `flags`.
    Phys { flags: PageFlags, phys: u64 },
}

/// The entries a mapping needs: `pages` pages from `virt` onto physical memory
/// from `phys`.
#[derive(Clone, Copy, Debug, PartialEq, Eq, Structural)]
pub struct Mapping {
    pub virt: u64,
    pub pages: usize,
    pub phys: u64,
    pub flags: PageFlags,
}

/// An address space of small pages.
pub struct VirtualMemory {
    root_map: u64,
    allocator: FreeList,
}

impl VirtualMemory {
    pub closed spec fn spec_root_map(&self) -> u64 {
        self.root_map
    }

    /// The free virtual ranges.
    pub closed spec fn free(&self) -> Seq<Node> {
        self.allocator@
    }

    pub open spec fn wf(&self) -> bool {
        crate::freelist::nodes_ok(self.free())
    }

    /// A user address space on the page map at `root_map`.
    pub fn new_userland(root_map: u64) -> (r: Self)
        ensures
            r.wf(),
            r.spec_root_map() == root_map,
            r.free() == seq![Node { start: USERLAND_START, len: USERLAND_LEN as usize }],
    {
        let mut allocator = FreeList::new();
        proof {
            let n = Node { start: USERLAND_START, len: USERLAND_LEN as usize };
            assert((0x7FFF_FFF0_0000u64 as usize) != 0usize) by (bit_vector);
            assert((0x7FFF_FFF0_0000u64 as usize) <= 0x7FFF_FFF0_0000u64) by (bit_vector);
            assert(!crate::freelist::has_adjacent(Seq::<Node>::empty(), n));
            assert(seq![n] + Seq::<Node>::empty() =~= seq![n]);
        }
        let _ = allocator.push_region(USERLAND_START, USERLAND_LEN as usize);
        VirtualMemory { root_map, allocator }
    }

    /// The root page map.
    pub fn get_page_map(&self) -> (r: u64)
        ensures
            r == self.spec_root_map(),
    {
        self.root_map
    }

    /// Maps `pages` small pages at `virt`, whose range must be free, or at a
    /// free range the address space picks, which must exist. Large and medium
    /// pages are not supported.
    pub fn map(&mut self, virt: Option<u64>, pages: usize, flags: Flags) -> (r: Mapping)
        requires
            old(self).wf(),
            flags matches Flags::Phys { flags: f, .. } ==> !f.size_large && !f.size_medium,
            pages * PAGE_SIZE <= usize::MAX,
            virt matches Some(v) ==> {
                let len = (pages * PAGE_SIZE) as usize;
                &&& v % (PAGE_SIZE as u64) == 0
                &&& len > 0 ==> v + len <= address_limit()
                &&& len > 0 ==> has_container(old(self).free(), v, len)
                &&& len > 0 ==> carve_fits(
                    old(self).free(),
                    first_container(old(self).free(), v, len),
                    v,
                    len,
                )
            },
            virt is None ==> {
                let len = (pages * PAGE_SIZE) as usize;
                &&& alloc_safe(old(self).free(), PAGE_SIZE, len)
                &&& has_fit(old(self).free(), PAGE_SIZE, len)
                &&& alloc_fits(
                    old(self).free(),
                    PAGE_SIZE,
                    len,
                    first_fit(old(self).free(), PAGE_SIZE, len),
                )
            },
        ensures
            final(self).wf(),
            final(self).spec_root_map() == old(self).spec_root_map(),
            r.pages == pages,
            flags matches Flags::Phys { flags: f, phys } ==> r.flags == f && r.phys == floor_bits(
                phys,
                PAGE_SIZE,
            ),
            virt matches Some(v) ==> {
                let len = (pages * PAGE_SIZE) as usize;
                &&& r.virt == v
                &&& len == 0 ==> final(self).free() == old(self).free()
                &&& len > 0 ==> final(self).free() == carve(
                    old(self).free(),
                    first_container(old(self).free(), v, len),
                    v,
                    len,
                )
            },
            virt is None ==> {
                let len = (pages * PAGE_SIZE) as usize;
                let k = first_fit(old(self).free(), PAGE_SIZE, len);
                &&& r.virt == align_up(old(self).free()[k].start, PAGE_SIZE)
                &&& final(self).free() == alloc_result(old(self).free(), PAGE_SIZE, len, k)
            },
    {
        let page_size: usize = match flags {
            Flags::Phys { flags: f, .. } => {
                if f.size_large {
                    proof {
                        assert(false);
                    }
                }
                if f.size_medium {
                    proof {
                        assert(false);
                    }
                }
                PAGE_SIZE
            },
        };
        let allocated_size = page_size * pages;
        let virt = match virt {
            Some(v) => {
                let _ = self.allocator.reserve_bytes(v, allocated_size);
                v
            },
            None => {
                match self.allocator.alloc_aligned_bytes(page_size, allocated_size) {
                    Ok(a) => a,
                    Err(_) => {
                        proof {
                            assert(false);
                        }
                        0
                    },
                }
            },
        };
        match flags {
            Flags::Phys { flags: f, phys } => {
                let phys = phys & !((page_size - 1) as u64);
                Mapping { virt, pages, phys, flags: f }
            },
        }
    }
}

/// A new user address space on the page map at `root_map`.
pub fn new_userland(root_map: u64) -> (r: VirtualMemory)
    ensures
        r.wf(),
        r.spec_root_map() == root_map,
        r.free() == seq![Node { start: USERLAND_START, len: USERLAND_LEN as usize }],
{
    VirtualMemory::new_userland(root_map)
}

} // verus!
