//! A process's virtual memory: the free ranges of its address space and the
//! decisions of a mapping request. Writing the page tables is left to the
//! caller, which receives a `MapRequest` describing what to write.
use vstd::prelude::*;

use crate::adr::{floor_bits, lemma_floor_bits, PageEntry, PhysAdr, VirtAdr};
use crate::freelist::{
    address_limit, align_up, alloc_fits, alloc_result, alloc_safe, carve, carve_fits,
    first_container, first_fit, has_container, has_fit, insert_fits, insert_spec,
    contains_range_spec, FreeList, Node,
};
use crate::freelist;
use vstd::arithmetic::power2::is_pow2;

verus! {

/// The small page size.
pub const PAGE_SIZE: usize = 4096;
/// The medium page size.
pub const MEDIUM_PAGE_SIZE: usize = 0x20_0000;
/// The large page size.
pub const LARGE_PAGE_SIZE: usize = 0x4000_0000;

/// The first address a user address space hands out.
pub const USERLAND_START: u64 = 0x10_0000;
/// The length of the range a user address space hands out: up to one page
/// below the top of the lower half.
pub const USERLAND_LEN: u64 = 0x7FFF_FFEF_F000;

/// Errors of virtual memory management.
#[derive(Clone, Copy, Debug, PartialEq, Eq, Structural)]
pub enum Error {
    AllocatorError(freelist::Error),
}

impl Error {
    /// The text shown for the error.
    pub open spec fn text(&self) -> Seq<char> {
        match self {
            Error::AllocatorError(e) => "allocation error: "@ + e.text(),
        }
    }

    /// The text shown for the error.
    pub fn message(&self) -> (r: String)
        ensures
            r@ == self.text(),
    {
        match self {
            Error::AllocatorError(e) => {
                let mut out = String::from_str("allocation error: ");
                let inner = e.message();
                out.append(inner.as_str());
                out
            },
        }
    }
}

/// Mapping flags, one bit each.
#[derive(Clone, Copy, Debug, PartialEq, Eq, Structural)]
pub struct Flags(pub u64);

/// The bit of an executable mapping.
pub const EXECUTABLE: u64 = 1;
/// The bit of a user-accessible mapping.
pub const USER: u64 = 2;
/// The bit of a mapping of large pages.
pub const LARGE_PAGES: u64 = 4;
/// The bit of a mapping of medium pages.
pub const MEDIUM_PAGES: u64 = 8;
/// The bit of a writable mapping.
pub const RW: u64 = 16;

/// What a mapping maps to.
#[derive(Clone, Copy, Debug, PartialEq, Eq, Structural)]
pub enum MapTy {
    /// Nothing yet: the pages are not present.
    Unbacked,
    /// Physical memory at `adr`.
    Phys { adr: PhysAdr },
}

/// The page-table entries a mapping needs: `pages` pages from `virt` onward,
/// onto physical memory from `phys` onward, with these properties.
#[derive(Clone, Copy, Debug, PartialEq, Eq, Structural)]
pub struct MapRequest {
    pub virt: VirtAdr,
    pub pages: usize,
    pub phys: PhysAdr,
    pub present: bool,
    pub no_execute: bool,
    pub size_large: bool,
    pub size_medium: bool,
    pub writable: bool,
    pub user: bool,
}

impl Flags {
    /// Whether every bit of `flag` is set.
    pub fn has(self, flag: u64) -> (r: bool)
        ensures
            r == (self.0 & flag == flag),
    {
        self.0 & flag == flag
    }

    /// The flags of both.
    pub fn union(self, other: Flags) -> (r: Flags)
        ensures
            r.0 == self.0 | other.0,
    {
        Flags(self.0 | other.0)
    }
}

/// The page size that `flags` ask for.
pub open spec fn page_size_of(flags: Flags) -> usize {
    if flags.0 & LARGE_PAGES == LARGE_PAGES {
        LARGE_PAGE_SIZE
    } else if flags.0 & MEDIUM_PAGES == MEDIUM_PAGES {
        MEDIUM_PAGE_SIZE
    } else {
        PAGE_SIZE
    }
}

/// The request for `pages` pages at `virt` with `flags` onto `ty`.
pub open spec fn request_of(virt: VirtAdr, pages: usize, flags: Flags, ty: MapTy) -> MapRequest {
    MapRequest {
        virt,
        pages,
        phys: match ty {
            MapTy::Unbacked => PhysAdr(0),
            MapTy::Phys { adr } => PhysAdr(floor_bits(adr.0, page_size_of(flags))),
        },
        present: ty is Phys,
        no_execute: !(flags.0 & EXECUTABLE == EXECUTABLE),
        size_large: flags.0 & LARGE_PAGES == LARGE_PAGES,
        size_medium: flags.0 & MEDIUM_PAGES == MEDIUM_PAGES,
        writable: flags.0 & RW == RW,
        user: flags.0 & USER == USER,
    }
}

/// What reserving `pages` pages of `page_size` bytes at `vadr` gives and
/// leaves of the free ranges `s`: a null `vadr` takes a free range aligned to
/// `page_size` wherever one fits; otherwise the range at `vadr` is taken out
/// of the first region that holds it, and an empty range takes nothing.
pub open spec fn reserve_outcome(s: Seq<Node>, vadr: u64, page_size: usize, pages: usize) -> (Result<(), Error>, Seq<Node>) {
    let len = (pages * page_size) as usize;
    if vadr == 0 {
        if has_fit(s, page_size, len) {
            (Ok(()), alloc_result(s, page_size, len, first_fit(s, page_size, len)))
        } else {
            (Err(Error::AllocatorError(freelist::Error::InsufficientSpace)), s)
        }
    } else if len == 0 {
        (Ok(()), s)
    } else if has_container(s, vadr, len) {
        (Ok(()), carve(s, first_container(s, vadr, len), vadr, len))
    } else {
        (Err(Error::AllocatorError(freelist::Error::ReserveError { adr: vadr, len })), s)
    }
}

/// Where reserving `pages` pages of `page_size` bytes at `vadr` puts the
/// range: at `vadr`, or, for a null `vadr`, at the free range it takes.
pub open spec fn reserved_start(s: Seq<Node>, vadr: u64, page_size: usize, pages: usize) -> u64 {
    if vadr == 0 {
        align_up(s[first_fit(s, page_size, (pages * page_size) as usize)].start, page_size)
    } else {
        vadr
    }
}

/// The free-list arithmetic of reserving `pages` pages of `page_size` bytes
/// at `vadr` stays inside `u64` and `usize`.
pub open spec fn reserve_safe(s: Seq<Node>, vadr: u64, page_size: usize, pages: usize) -> bool {
    let len = (pages * page_size) as usize;
    &&& pages * page_size <= usize::MAX
    &&& vadr == 0 ==> {
        &&& page_size > 0
        &&& alloc_safe(s, page_size, len)
        &&& has_fit(s, page_size, len) ==> alloc_fits(s, page_size, len, first_fit(s, page_size, len))
    }
    &&& vadr != 0 && len > 0 ==> {
        &&& vadr + len <= address_limit()
        &&& has_container(s, vadr, len) ==> carve_fits(s, first_container(s, vadr, len), vadr, len)
    }
}

/// Each entry bit of a mapping request comes from its own flag bit alone:
/// the large-page bit from `LARGE_PAGES`, the medium-page bit from
/// `MEDIUM_PAGES`, writable from `RW`, user from `USER`, and no-execute from
/// the absence of `EXECUTABLE`; the entries are present exactly when they map
/// physical memory, and the request keeps the address and page count asked for.
pub proof fn lemma_request_bits(virt: VirtAdr, pages: usize, flags: Flags, ty: MapTy)
    ensures
        request_of(virt, pages, flags, ty).size_large <==> (flags.0 >> 2u64) & 1 == 1,
        request_of(virt, pages, flags, ty).size_medium <==> (flags.0 >> 3u64) & 1 == 1,
        request_of(virt, pages, flags, ty).writable <==> (flags.0 >> 4u64) & 1 == 1,
        request_of(virt, pages, flags, ty).user <==> (flags.0 >> 1u64) & 1 == 1,
        request_of(virt, pages, flags, ty).no_execute <==> flags.0 & 1 == 0,
        request_of(virt, pages, flags, ty).present <==> ty is Phys,
        request_of(virt, pages, flags, ty).virt == virt,
        request_of(virt, pages, flags, ty).pages == pages,
{
    let f = flags.0;
    assert((f & 4 == 4) <==> (f >> 2u64) & 1 == 1) by (bit_vector);
    assert((f & 8 == 8) <==> (f >> 3u64) & 1 == 1) by (bit_vector);
    assert((f & 16 == 16) <==> (f >> 4u64) & 1 == 1) by (bit_vector);
    assert((f & 2 == 2) <==> (f >> 1u64) & 1 == 1) by (bit_vector);
    assert((f & 1 == 1) <==> !(f & 1 == 0)) by (bit_vector);
}

/// A request backed by physical memory points at the start of the page, of
/// the size the flags ask for, that holds the address given; an unbacked one
/// points nowhere.
pub proof fn lemma_request_phys(virt: VirtAdr, pages: usize, flags: Flags, ty: MapTy)
    ensures
        ty matches MapTy::Phys { adr } ==> {
            let p = request_of(virt, pages, flags, ty).phys.0;
            &&& p % (page_size_of(flags) as u64) == 0
            &&& p <= adr.0 < p + page_size_of(flags)
        },
        ty is Unbacked ==> request_of(virt, pages, flags, ty).phys.0 == 0,
{
    lemma_page_sizes_pow2();
    if let MapTy::Phys { adr } = ty {
        lemma_floor_bits(adr.0, page_size_of(flags));
    }
}

/// Two requests whose flags agree on one bit agree on the entry bit that
/// bit decides, whatever the other bits are.
pub proof fn lemma_request_bits_independent(virt: VirtAdr, pages: usize, f1: Flags, f2: Flags, ty: MapTy)
    ensures
        f1.0 & MEDIUM_PAGES == f2.0 & MEDIUM_PAGES ==> request_of(virt, pages, f1, ty).size_medium
            == request_of(virt, pages, f2, ty).size_medium,
        f1.0 & LARGE_PAGES == f2.0 & LARGE_PAGES ==> request_of(virt, pages, f1, ty).size_large
            == request_of(virt, pages, f2, ty).size_large,
        f1.0 & RW == f2.0 & RW ==> request_of(virt, pages, f1, ty).writable == request_of(
            virt,
            pages,
            f2,
            ty,
        ).writable,
        f1.0 & USER == f2.0 & USER ==> request_of(virt, pages, f1, ty).user == request_of(
            virt,
            pages,
            f2,
            ty,
        ).user,
        f1.0 & EXECUTABLE == f2.0 & EXECUTABLE ==> request_of(virt, pages, f1, ty).no_execute
            == request_of(virt, pages, f2, ty).no_execute,
{
    lemma_request_bits(virt, pages, f1, ty);
    lemma_request_bits(virt, pages, f2, ty);
    let a = f1.0;
    let b = f2.0;
    assert(a & 8 == b & 8 ==> ((a >> 3u64) & 1 == 1 <==> (b >> 3u64) & 1 == 1)) by (bit_vector);
    assert(a & 4 == b & 4 ==> ((a >> 2u64) & 1 == 1 <==> (b >> 2u64) & 1 == 1)) by (bit_vector);
    assert(a & 16 == b & 16 ==> ((a >> 4u64) & 1 == 1 <==> (b >> 4u64) & 1 == 1)) by (bit_vector);
    assert(a & 2 == b & 2 ==> ((a >> 1u64) & 1 == 1 <==> (b >> 1u64) & 1 == 1)) by (bit_vector);
    assert(a & 1 == b & 1 ==> (a & 1 == 0 <==> b & 1 == 0)) by (bit_vector);
}

/// The three page sizes are powers of two.
pub proof fn lemma_page_sizes_pow2()
    ensures
        is_pow2(PAGE_SIZE as int),
        is_pow2(MEDIUM_PAGE_SIZE as int),
        is_pow2(LARGE_PAGE_SIZE as int),
{
    reveal_with_fuel(is_pow2, 31);
    assert(is_pow2(4096));
    assert(is_pow2(0x20_0000));
    assert(is_pow2(0x4000_0000));
}

/// An address space: its root page map and its free virtual ranges.
pub struct VMM {
    root_map: u64,
    free_regions: FreeList,
}

impl VMM {
    pub closed spec fn spec_root_map(&self) -> u64 {
        self.root_map
    }

    /// The free virtual ranges.
    pub closed spec fn free(&self) -> Seq<Node> {
        self.free_regions@
    }

    pub open spec fn wf(&self) -> bool {
        freelist::nodes_ok(self.free())
    }

    /// A user address space on the page map at `root_map`, handing out
    /// `USERLAND_START .. USERLAND_START + USERLAND_LEN`.
    pub fn new_userland(root_map: u64) -> (r: VMM)
        ensures
            r.wf(),
            r.spec_root_map() == root_map,
            r.free() == seq![Node { start: USERLAND_START, len: USERLAND_LEN as usize }],
    {
        let mut allocator = FreeList::new();
        proof {
            let n = Node { start: USERLAND_START, len: USERLAND_LEN as usize };
            assert((0x7FFF_FFEF_F000u64 as usize) != 0usize) by (bit_vector);
            assert((0x7FFF_FFEF_F000u64 as usize) <= 0x7FFF_FFEF_F000u64) by (bit_vector);
            assert(!freelist::has_adjacent(Seq::<Node>::empty(), n));
            assert(seq![n] + Seq::<Node>::empty() =~= seq![n]);
        }
        let _ = allocator.push_region(USERLAND_START, USERLAND_LEN as usize);
        VMM { root_map, free_regions: allocator }
    }

    /// The root page map.
    pub fn get_page_map(&self) -> (r: u64)
        ensures
            r == self.spec_root_map(),
    {
        self.root_map
    }

    /// The physical address behind `virt`, given the entry that the walk of
    /// this address space's page map finds for it (see `VirtAdr::to_phys`).
    pub fn virt_to_phys(&self, virt: VirtAdr, entry: Option<PageEntry>) -> (r: Option<PhysAdr>)
        requires
            entry matches Some(e) ==> e.present ==> e.adr.0 + ((virt.0 as usize) & 0xfff) as u64
                <= u64::MAX,
        ensures
            r == match entry {
                Some(e) => if e.present {
                    Some(PhysAdr((e.adr.0 + ((virt.0 as usize) & 0xfff) as u64) as u64))
                } else {
                    None
                },
                None => None,
            },
    {
        virt.to_phys(entry)
    }

    /// Whether `virt` is mapped, given the entry that the walk of this
    /// address space's page map finds for it.
    pub fn contains_page(&self, virt: VirtAdr, entry: Option<PageEntry>) -> (r: bool)
        requires
            entry matches Some(e) ==> e.present ==> e.adr.0 + ((virt.0 as usize) & 0xfff) as u64
                <= u64::MAX,
        ensures
            r == (entry matches Some(e) && e.present),
            r == (match entry {
                Some(e) => if e.present {
                    Some(PhysAdr((e.adr.0 + ((virt.0 as usize) & 0xfff) as u64) as u64))
                } else {
                    None
                },
                None => None,
            }) is Some,
    {
        self.virt_to_phys(virt, entry).is_some()
    }

    /// The page size that `flags` ask for.
    pub fn page_size_from_flags(flags: Flags) -> (r: usize)
        ensures
            r == page_size_of(flags),
    {
        if flags.has(LARGE_PAGES) {
            LARGE_PAGE_SIZE
        } else if flags.has(MEDIUM_PAGES) {
            MEDIUM_PAGE_SIZE
        } else {
            PAGE_SIZE
        }
    }

    /// Takes `vadr .. vadr + pages * page_size` out of the free ranges; a
    /// null `vadr` takes a free range aligned to `page_size` instead.
    pub fn alloc_reserve_range(&mut self, vadr: VirtAdr, page_size: usize, pages: usize) -> (r: Result<(), Error>)
        requires
            old(self).wf(),
            reserve_safe(old(self).free(), vadr.0, page_size, pages),
        ensures
            final(self).wf(),
            final(self).spec_root_map() == old(self).spec_root_map(),
            (r, final(self).free()) == reserve_outcome(old(self).free(), vadr.0, page_size, pages),
    {
        if vadr.is_null() {
            match self.alloc_new(page_size, pages) {
                Ok(_) => Ok(()),
                Err(e) => Err(e),
            }
        } else {
            match self.free_regions.reserve_bytes(vadr.adr(), pages * page_size) {
                Ok(()) => Ok(()),
                Err(e) => Err(Error::AllocatorError(e)),
            }
        }
    }

    /// Takes `pages * page_size` bytes aligned to `page_size` from the free ranges.
    pub fn alloc_new(&mut self, page_size: usize, pages: usize) -> (r: Result<VirtAdr, Error>)
        requires
            old(self).wf(),
            page_size > 0,
            pages * page_size <= usize::MAX,
            alloc_safe(old(self).free(), page_size, (pages * page_size) as usize),
            has_fit(old(self).free(), page_size, (pages * page_size) as usize) ==> alloc_fits(
                old(self).free(),
                page_size,
                (pages * page_size) as usize,
                first_fit(old(self).free(), page_size, (pages * page_size) as usize),
            ),
        ensures
            final(self).wf(),
            final(self).spec_root_map() == old(self).spec_root_map(),
            r is Ok <==> has_fit(old(self).free(), page_size, (pages * page_size) as usize),
            match r {
                Ok(v) => {
                    let len = (pages * page_size) as usize;
                    let k = first_fit(old(self).free(), page_size, len);
                    &&& v.0 == align_up(old(self).free()[k].start, page_size)
                    &&& final(self).free() == alloc_result(old(self).free(), page_size, len, k)
                },
                Err(e) => e == Error::AllocatorError(freelist::Error::InsufficientSpace)
                    && final(self).free() == old(self).free(),
            },
    {
        match self.free_regions.alloc_aligned_bytes(page_size, pages * page_size) {
            Ok(adr) => Ok(VirtAdr::new(adr)),
            Err(e) => Err(Error::AllocatorError(e)),
        }
    }

    /// Gives `vadr .. vadr + pages * page_size` back to the free ranges.
    pub fn alloc_free(&mut self, vadr: VirtAdr, page_size: usize, pages: usize) -> (r: Result<(), Error>)
        requires
            old(self).wf(),
            pages * page_size <= usize::MAX,
            !contains_range_spec(old(self).free(), vadr.0, (pages * page_size) as usize),
            vadr.0 + pages * page_size <= address_limit(),
            insert_fits(old(self).free(), Node { start: vadr.0, len: (pages * page_size) as usize }),
        ensures
            r is Ok,
            final(self).wf(),
            final(self).spec_root_map() == old(self).spec_root_map(),
            final(self).free() == insert_spec(
                old(self).free(),
                Node { start: vadr.0, len: (pages * page_size) as usize },
            ),
    {
        match self.free_regions.free_bytes(vadr.adr(), page_size * pages) {
            Ok(()) => Ok(()),
            Err(e) => Err(Error::AllocatorError(e)),
        }
    }

    /// Maps `pages` pages with `flags` onto `ty`: at `virt`, whose range must
    /// be free, or at a free range the address space picks (also for a null
    /// `virt`, as `alloc_reserve_range` takes a free range for it). Returns the
    /// page-table entries to write.
    pub fn map(&mut self, virt: Option<VirtAdr>, pages: usize, flags: Flags, ty: MapTy) -> (r: Result<MapRequest, Error>)
        requires
            old(self).wf(),
            pages * page_size_of(flags) <= usize::MAX,
            ty matches MapTy::Phys { adr } ==> adr.0 % (page_size_of(flags) as u64) == 0,
            virt matches Some(v) ==> {
                &&& reserve_safe(old(self).free(), v.0, page_size_of(flags), pages)
                &&& reserve_outcome(old(self).free(), v.0, page_size_of(flags), pages).0 is Ok
            },
            virt is None ==> {
                let ps = page_size_of(flags);
                let len = (pages * ps) as usize;
                &&& alloc_safe(old(self).free(), ps, len)
                &&& has_fit(old(self).free(), ps, len) ==> alloc_fits(
                    old(self).free(),
                    ps,
                    len,
                    first_fit(old(self).free(), ps, len),
                )
            },
        ensures
            final(self).wf(),
            final(self).spec_root_map() == old(self).spec_root_map(),
            virt matches Some(v) ==> {
                &&& r == Ok::<MapRequest, Error>(request_of(
                    VirtAdr(reserved_start(old(self).free(), v.0, page_size_of(flags), pages)),
                    pages,
                    flags,
                    ty,
                ))
                &&& final(self).free() == reserve_outcome(old(self).free(), v.0, page_size_of(flags), pages).1
            },
            virt is None ==> {
                let ps = page_size_of(flags);
                let len = (pages * ps) as usize;
                &&& r is Ok <==> has_fit(old(self).free(), ps, len)
                &&& match r {
                    Ok(req) => {
                        let k = first_fit(old(self).free(), ps, len);
                        let v = VirtAdr(align_up(old(self).free()[k].start, ps));
                        &&& req == request_of(v, pages, flags, ty)
                        &&& final(self).free() == alloc_result(old(self).free(), ps, len, k)
                    },
                    Err(e) => e == Error::AllocatorError(freelist::Error::InsufficientSpace)
                        && final(self).free() == old(self).free(),
                }
            },
    {
        let page_size = Self::page_size_from_flags(flags);
        let virt = match virt {
            Some(v) => {
                if v.is_null() {
                    match self.alloc_new(page_size, pages) {
                        Ok(taken) => taken,
                        Err(_) => {
                            proof {
                                assert(false);
                            }
                            v
                        },
                    }
                } else {
                    match self.alloc_reserve_range(v, page_size, pages) {
                        Ok(()) => {},
                        Err(_) => {
                            proof {
                                assert(false);
                            }
                        },
                    }
                    v
                }
            },
            None => {
                match self.alloc_new(page_size, pages) {
                    Ok(v) => v,
                    Err(e) => {
                        return Err(e);
                    },
                }
            },
        };
        Ok(Self::request(virt, pages, flags, ty))
    }

    /// The page-table entries for `pages` pages at `virt` with `flags` onto `ty`.
    fn request(virt: VirtAdr, pages: usize, flags: Flags, ty: MapTy) -> (r: MapRequest)
        ensures
            r == request_of(virt, pages, flags, ty),
    {
        let page_size = Self::page_size_from_flags(flags);
        let phys = match ty {
            MapTy::Unbacked => PhysAdr::null(),
            MapTy::Phys { adr } => {
                proof {
                    lemma_page_sizes_pow2();
                }
                adr.align_floor(page_size)
            },
        };
        MapRequest {
            virt,
            pages,
            phys,
            present: ty.is_phys(),
            no_execute: !flags.has(EXECUTABLE),
            size_large: flags.has(LARGE_PAGES),
            size_medium: flags.has(MEDIUM_PAGES),
            writable: flags.has(RW),
            user: flags.has(USER),
        }
    }
}

impl MapTy {
    /// Whether the mapping maps onto physical memory.
    pub fn is_phys(&self) -> (r: bool)
        ensures
            r == (*self is Phys),
    {
        match self {
            MapTy::Unbacked => false,
            MapTy::Phys { .. } => true,
        }
    }
}

/// A new user address space on the page map at `root_map`.
pub fn new_userland(root_map: u64) -> (r: VMM)
    ensures
        r.wf(),
        r.spec_root_map() == root_map,
        r.free() == seq![Node { start: USERLAND_START, len: USERLAND_LEN as usize }],
{
    VMM::new_userland(root_map)
}

/// The start of the kernel's half of the address space.
pub const KERNEL_SPACE_START: u64 = 0xFFFF_8000_0000_0000;
/// The length of the kernel's half of the address space.
pub const KERNEL_SPACE_LEN: u64 = 0x8000_0000_0000;
/// The large pages set aside for the direct map of physical memory.
pub const HHDM_RESERVED_PAGES: usize = 1024;
/// The start of the top 2 GiB of the address space, where the kernel lies.
pub const KERNEL_TOP_START: u64 = 0xFFFF_FFFF_8000_0000;
/// The small pages of the top 2 GiB.
pub const KERNEL_TOP_PAGES: usize = 524288;

/// The first page of the kernel section `sec` (its start and end address).
pub open spec fn section_start(sec: (u64, u64)) -> u64 {
    floor_bits(sec.0, PAGE_SIZE)
}

/// The pages of the kernel section `sec`, from its first page to its end.
pub open spec fn section_pages(sec: (u64, u64)) -> usize {
    (((sec.1 - section_start(sec)) + PAGE_SIZE - 1) / (PAGE_SIZE as int)) as u64 as usize
}

/// The free ranges of a new kernel address space.
pub open spec fn kernel_space() -> Seq<Node> {
    insert_spec(Seq::empty(), Node { start: KERNEL_SPACE_START, len: KERNEL_SPACE_LEN as usize })
}

/// What setting up the kernel's address space gives, from the direct map at
/// `hhdm_base` of `hhdm_len` bytes, the kernel's physical base `phys`, and its
/// code, read-only and read-write sections: the free ranges left and the
/// mappings to write, or the first reservation that fails.
///
/// The direct map's 1024 large pages and the top 2 GiB are reserved; then
/// the direct map is mapped read-write in large pages onto physical address
/// zero, and each section from its first page onto the next physical pages.
/// The mappings are meant for the reserved windows and take nothing more
/// from the free ranges.
pub open spec fn kernel_plan(
    hhdm_base: u64,
    hhdm_len: usize,
    phys: u64,
    text: (u64, u64),
    ro: (u64, u64),
    rw: (u64, u64),
) -> Result<(Seq<Node>, Seq<MapRequest>), Error> {
    let hp = hhdm_len / LARGE_PAGE_SIZE;
    let (r1, s1) = reserve_outcome(kernel_space(), hhdm_base, LARGE_PAGE_SIZE, HHDM_RESERVED_PAGES);
    let (r2, s2) = reserve_outcome(s1, KERNEL_TOP_START, PAGE_SIZE, KERNEL_TOP_PAGES);
    let p_ro = (phys + section_pages(text) * PAGE_SIZE) as u64;
    let p_rw = (p_ro + section_pages(ro) * PAGE_SIZE) as u64;
    if r1 is Err {
        Err(r1->Err_0)
    } else if r2 is Err {
        Err(r2->Err_0)
    } else {
        Ok(
            (
                s2,
                seq![
                    request_of(VirtAdr(hhdm_base), hp, Flags(RW | LARGE_PAGES), MapTy::Phys { adr: PhysAdr(0) }),
                    request_of(VirtAdr(section_start(text)), section_pages(text), Flags(EXECUTABLE), MapTy::Phys { adr: PhysAdr(phys) }),
                    request_of(VirtAdr(section_start(ro)), section_pages(ro), Flags(0), MapTy::Phys { adr: PhysAdr(p_ro) }),
                    request_of(VirtAdr(section_start(rw)), section_pages(rw), Flags(RW), MapTy::Phys { adr: PhysAdr(p_rw) }),
                ],
            ),
        )
    }
}

/// The set-up's arithmetic stays in range: each section ends at or after its
/// first page and its page count fits, the physical addresses stay inside
/// `u64` and `usize`, the kernel's physical base is page-aligned, and both
/// reservations are `reserve_safe`.
pub open spec fn kernel_plan_safe(
    hhdm_base: u64,
    hhdm_len: usize,
    phys: u64,
    text: (u64, u64),
    ro: (u64, u64),
    rw: (u64, u64),
) -> bool {
    let (r1, s1) = reserve_outcome(kernel_space(), hhdm_base, LARGE_PAGE_SIZE, HHDM_RESERVED_PAGES);
    &&& text.1 >= section_start(text) && text.1 - section_start(text) + PAGE_SIZE - 1 <= u64::MAX
    &&& ro.1 >= section_start(ro) && ro.1 - section_start(ro) + PAGE_SIZE - 1 <= u64::MAX
    &&& rw.1 >= section_start(rw) && rw.1 - section_start(rw) + PAGE_SIZE - 1 <= u64::MAX
    &&& section_pages(text) * PAGE_SIZE <= usize::MAX
    &&& section_pages(ro) * PAGE_SIZE <= usize::MAX
    &&& phys % (PAGE_SIZE as u64) == 0
    &&& phys + section_pages(text) * PAGE_SIZE + section_pages(ro) * PAGE_SIZE <= u64::MAX
    &&& phys + section_pages(text) * PAGE_SIZE + section_pages(ro) * PAGE_SIZE <= usize::MAX
    &&& reserve_safe(kernel_space(), hhdm_base, LARGE_PAGE_SIZE, HHDM_RESERVED_PAGES)
    &&& r1 is Ok ==> reserve_safe(s1, KERNEL_TOP_START, PAGE_SIZE, KERNEL_TOP_PAGES)
}

/// A kernel section's mapping starts at the page that holds the section's
/// first byte, page-aligned, and its pages reach the section's end, with no
/// page to spare.
pub proof fn lemma_section_cover(sec: (u64, u64))
    requires
        sec.1 >= section_start(sec),
        sec.1 - section_start(sec) + PAGE_SIZE - 1 <= u64::MAX,
        sec.1 - section_start(sec) <= usize::MAX,
    ensures
        section_start(sec) % (PAGE_SIZE as u64) == 0,
        section_start(sec) <= sec.0 < section_start(sec) + PAGE_SIZE,
        section_start(sec) + section_pages(sec) * PAGE_SIZE >= sec.1,
        section_pages(sec) == 0 || section_start(sec) + (section_pages(sec) - 1) * PAGE_SIZE < sec.1,
{
    lemma_page_sizes_pow2();
    lemma_floor_bits(sec.0, PAGE_SIZE);
    let len: int = sec.1 - section_start(sec);
    let n: int = (len + 4095) / 4096;
    assert(n * 4096 >= len && (n == 0 || (n - 1) * 4096 < len) && n <= len) by (nonlinear_arith)
        requires
            n == (len + 4095) / 4096,
            len >= 0,
    ;
    assert(section_pages(sec) == n);
}

/// `req` maps the kernel section `sec` (its start and end address): it
/// starts page-aligned on the page that holds the section's first byte, and
/// its pages reach the section's end with no page to spare.
pub open spec fn maps_section(req: MapRequest, sec: (u64, u64)) -> bool {
    &&& req.virt.0 % (PAGE_SIZE as u64) == 0
    &&& req.virt.0 <= sec.0 < req.virt.0 + PAGE_SIZE
    &&& req.virt.0 + req.pages * PAGE_SIZE >= sec.1
    &&& req.pages == 0 || req.virt.0 + (req.pages - 1) * PAGE_SIZE < sec.1
}

/// The kernel's set-up, where it succeeds, maps the direct map read-write in
/// large pages from `hhdm_base` onto physical address zero, then each section
/// from its first page in small pages: the code executable and read-only,
/// the read-only data neither executable nor writable, the read-write data
/// writable and not executable; the sections lie back to back in physical
/// memory from `phys` on, none of them for user mode.
pub proof fn lemma_kernel_plan_requests(
    hhdm_base: u64,
    hhdm_len: usize,
    phys: u64,
    text: (u64, u64),
    ro: (u64, u64),
    rw: (u64, u64),
)
    requires
        kernel_plan_safe(hhdm_base, hhdm_len, phys, text, ro, rw),
        text.1 - section_start(text) <= usize::MAX,
        ro.1 - section_start(ro) <= usize::MAX,
        rw.1 - section_start(rw) <= usize::MAX,
    ensures
        kernel_plan(hhdm_base, hhdm_len, phys, text, ro, rw) matches Ok((_, reqs)) ==> {
            &&& reqs.len() == 4
            &&& reqs[0].virt.0 == hhdm_base && reqs[0].phys.0 == 0
            &&& reqs[0].pages == hhdm_len / LARGE_PAGE_SIZE
            &&& reqs[0].size_large && !reqs[0].size_medium && reqs[0].writable && reqs[0].present
            &&& maps_section(reqs[1], text)
            &&& maps_section(reqs[2], ro)
            &&& maps_section(reqs[3], rw)
            &&& reqs[1].phys.0 == phys
            &&& reqs[2].phys.0 == reqs[1].phys.0 + reqs[1].pages * PAGE_SIZE
            &&& reqs[3].phys.0 == reqs[2].phys.0 + reqs[2].pages * PAGE_SIZE
            &&& !reqs[1].no_execute && !reqs[1].writable
            &&& reqs[2].no_execute && !reqs[2].writable
            &&& reqs[3].no_execute && reqs[3].writable
            &&& forall|k: int|
                1 <= k < 4 ==> (#[trigger] reqs[k]).present && !reqs[k].size_large
                    && !reqs[k].size_medium
            &&& forall|k: int| 0 <= k < 4 ==> !(#[trigger] reqs[k]).user
        },
{
    lemma_section_cover(text);
    lemma_section_cover(ro);
    lemma_section_cover(rw);
    assert(20u64 & 4u64 == 4u64 && 20u64 & 8u64 == 0u64 && 20u64 & 16u64 == 16u64 && 20u64 & 2u64
        == 0u64) by (bit_vector);
    assert(1u64 & 4u64 == 0u64 && 1u64 & 8u64 == 0u64 && 1u64 & 16u64 == 0u64 && 1u64 & 2u64 == 0u64
        && 1u64 & 1u64 == 1u64) by (bit_vector);
    assert(0u64 & 4u64 == 0u64 && 0u64 & 8u64 == 0u64 && 0u64 & 16u64 == 0u64 && 0u64 & 2u64 == 0u64
        && 0u64 & 1u64 == 0u64) by (bit_vector);
    assert(16u64 & 4u64 == 0u64 && 16u64 & 8u64 == 0u64 && 16u64 & 16u64 == 16u64 && 16u64 & 2u64
        == 0u64 && 16u64 & 1u64 == 0u64) by (bit_vector);
    assert(RW | LARGE_PAGES == 20u64) by (bit_vector);
    assert(0u64 & !((LARGE_PAGE_SIZE - 1) as u64) == 0u64) by (bit_vector);
    let tp = section_pages(text);
    let rp = section_pages(ro);
    let p_ro: int = phys + tp * PAGE_SIZE;
    let p_rw: int = p_ro + rp * PAGE_SIZE;
    assert(p_ro % 4096 == 0 && p_rw % 4096 == 0) by (nonlinear_arith)
        requires
            phys % 4096 == 0,
            p_ro == phys + tp * 4096,
            p_rw == p_ro + rp * 4096,
    ;
    let a = phys;
    let b = p_ro as u64;
    let c = p_rw as u64;
    assert(a % 4096 == 0 ==> a & !4095u64 == a) by (bit_vector);
    assert(b % 4096 == 0 ==> b & !4095u64 == b) by (bit_vector);
    assert(c % 4096 == 0 ==> c & !4095u64 == c) by (bit_vector);
}

impl VMM {
    /// The mapping of the kernel section `sec` from its first page onto
    /// `phys` with `flags`.
    fn section_request(sec: (u64, u64), flags: Flags, phys: u64) -> (r: MapRequest)
        requires
            sec.1 >= section_start(sec) && sec.1 - section_start(sec) + PAGE_SIZE - 1 <= u64::MAX,
        ensures
            r == request_of(
                VirtAdr(section_start(sec)),
                section_pages(sec),
                flags,
                MapTy::Phys { adr: PhysAdr(phys) },
            ),
    {
        let start = sec.0 & !(PAGE_SIZE as u64 - 1);
        assert(start == section_start(sec));
        let len = sec.1 - start;
        let pages = ((len + (PAGE_SIZE as u64 - 1)) / PAGE_SIZE as u64) as usize;
        Self::request(VirtAdr::new(start), pages, flags, MapTy::Phys { adr: PhysAdr::new(phys) })
    }

    /// Sets up the kernel's address space on the page map at `root_map` (see
    /// `kernel_plan`); where a reservation fails, the set-up stops with its
    /// error.
    pub fn init_kernel_vmm(
        root_map: u64,
        hhdm_base: VirtAdr,
        hhdm_len: usize,
        phys: PhysAdr,
        text: (u64, u64),
        ro: (u64, u64),
        rw: (u64, u64),
    ) -> (r: Result<(VMM, Vec<MapRequest>), Error>)
        requires
            kernel_plan_safe(hhdm_base.0, hhdm_len, phys.0, text, ro, rw),
        ensures
            match kernel_plan(hhdm_base.0, hhdm_len, phys.0, text, ro, rw) {
                Ok((free, reqs)) => r matches Ok((vmm, v)) && vmm.wf() && vmm.spec_root_map() == root_map
                    && vmm.free() == free && v@ == reqs,
                Err(e) => r matches Err(e2) && e2 == e,
            },
    {
        let mut allocator = FreeList::new();
        proof {
            let n = Node { start: KERNEL_SPACE_START, len: KERNEL_SPACE_LEN as usize };
            assert((0x8000_0000_0000u64 as usize) <= 0x8000_0000_0000u64) by (bit_vector);
            assert(!freelist::has_adjacent(Seq::<Node>::empty(), n));
            freelist::lemma_insert_ok(Seq::<Node>::empty(), n);
        }
        let _ = allocator.push_region(KERNEL_SPACE_START, KERNEL_SPACE_LEN as usize);
        let mut vmm = VMM { root_map, free_regions: allocator };
        assert(vmm.free() == kernel_space());
        match vmm.alloc_reserve_range(hhdm_base, LARGE_PAGE_SIZE, HHDM_RESERVED_PAGES) {
            Ok(()) => {},
            Err(e) => {
                return Err(e);
            },
        }
        match vmm.alloc_reserve_range(VirtAdr::new(KERNEL_TOP_START), PAGE_SIZE, KERNEL_TOP_PAGES) {
            Ok(()) => {},
            Err(e) => {
                return Err(e);
            },
        }
        let hhdm_pages = hhdm_len / LARGE_PAGE_SIZE;
        proof {
            assert(RW | LARGE_PAGES == 20u64) by (bit_vector);
        }
        let hhdm_req = Self::request(
            hhdm_base,
            hhdm_pages,
            Flags(RW).union(Flags(LARGE_PAGES)),
            MapTy::Phys { adr: PhysAdr::new(0) },
        );
        let text_req = Self::section_request(text, Flags(EXECUTABLE), phys.adr());
        let p_ro = phys.adr() + (text_req.pages * PAGE_SIZE) as u64;
        let ro_req = Self::section_request(ro, Flags(0), p_ro);
        let p_rw = p_ro + (ro_req.pages * PAGE_SIZE) as u64;
        let rw_req = Self::section_request(rw, Flags(RW), p_rw);
        let mut reqs: Vec<MapRequest> = Vec::new();
        reqs.push(hhdm_req);
        reqs.push(text_req);
        reqs.push(ro_req);
        reqs.push(rw_req);
        proof {
            assert(reqs@ =~= kernel_plan(hhdm_base.0, hhdm_len, phys.0, text, ro, rw)->Ok_0.1);
        }
        Ok((vmm, reqs))
    }
}

} // verus!
