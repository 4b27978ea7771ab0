use kernel::adr::{PageEntry, PhysAdr, VirtAdr};
use kernel::block_heap::{BlockDesc, Heap, BLOCK_SIZE, HEAP_BLOCK_COUNT};
use kernel::freelist;
use kernel::heap::{free_list_alloc, free_list_free, Error as HeapError, HeapList, PrimordialAlloc};
use kernel::intrusive::IntrusiveFreeList;
use kernel::layout::Layout;
use kernel::pmm::{
    alloc_pages, free_pages, hhdm_to_phys, init_regions, phys_to_hhdm, MemmapEntry, PageAllocator,
    PagePtr, MEMMAP_RESERVED, MEMMAP_USABLE,
};
use kernel::virtual_memory::{self, PageFlags, VirtualMemory};
use kernel::thread::{create_userspace_thread_stack, USER_STACK_BASE};
use kernel::user_heap::{aligned_address, request_len};
use kernel::vmm::{self, Flags, MapTy, VMM};
use kernel::wm::{WorkMemory, KWM_LEN};

fn run_list<const B: usize>(list: &IntrusiveFreeList<B>) -> Vec<(u64, u64)> {
    list.runs().iter().map(|r| (r.adr, r.blocks)).collect()
}

#[test]
fn addresses_align_and_move() {
    let p = PhysAdr::new(0x1234);
    assert_eq!(p.adr(), 0x1234);
    assert_eq!(p.align_ceil(0x1000).adr(), 0x2000);
    assert_eq!(p.align_floor(0x1000).adr(), 0x1000);
    assert!(!p.is_aligned(0x1000));
    assert!(PhysAdr::new(0x3000).is_aligned(0x1000));
    assert_eq!(p.mask(0xff).adr(), 0x34);
    assert_eq!(p.add(0x10).adr(), 0x1244);
    assert_eq!(p.sub(0x34).adr(), 0x1200);
    assert!(PhysAdr::null().is_null());
    let v = VirtAdr::new(0xffff_8000_0000_0fff);
    assert_eq!(v.align_floor(0x1000).adr(), 0xffff_8000_0000_0000);
    assert_eq!(v.align_ceil(0x1000).adr(), 0xffff_8000_0000_1000);
    assert_eq!(VirtAdr::new(0x2000).align_ceil(0x1000).adr(), 0x2000);
    assert!(!v.is_null());
}

#[test]
fn addresses_as_text() {
    assert_eq!(PhysAdr::new(0x1234).to_text(), "0x0000000000001234");
    assert_eq!(VirtAdr::new(0xffff_8000_0000_abcd).to_text(), "0xffff80000000abcd");
}

#[test]
fn direct_map_round_trip() {
    let base = VirtAdr::new(0xffff_8000_0000_0000);
    let v = phys_to_hhdm(PhysAdr::new(0x5000), base);
    assert_eq!(v.adr(), 0xffff_8000_0000_5000);
    assert_eq!(hhdm_to_phys(v, base).adr(), 0x5000);
}

#[test]
fn page_ptr_parts() {
    let p = PagePtr::from_parts(0xffff_8000_0001_0000, 3);
    assert_eq!(p.ptr(), 0xffff_8000_0001_0000);
    assert_eq!(p.page_count(), 3);
    assert_eq!(p.byte_size(), 3 * 4096);
    assert_eq!(p.virt().adr(), 0xffff_8000_0001_0000);
    assert_eq!(p.phys(VirtAdr::new(0xffff_8000_0000_0000)).adr(), 0x1_0000);
    let h = PagePtr::from_parts_hhdm(0x2000, 1);
    assert_eq!((h.ptr(), h.page_count()), (0x2000, 1));
}

#[test]
fn pages_come_from_the_first_run_and_go_back() {
    let mut pages = PageAllocator::new();
    pages.push_region_unchecked(0x10000, 0x4000);
    let p = alloc_pages(&mut pages, 2);
    assert_eq!((p.ptr(), p.page_count()), (0x10000, 2));
    assert_eq!(run_list(&pages), vec![(0x12000, 2)]);
    free_pages(&mut pages, p);
    // the freed pages end where the head run begins: the merged run goes after the head
    assert_eq!(run_list(&pages), vec![(0x12000, 2), (0x10000, 4)]);
}

#[test]
fn memory_map_usable_entries_become_runs() {
    let hhdm = VirtAdr::new(0xffff_8000_0000_0000);
    let mut entries = vec![
        MemmapEntry { base: 0x1000, len: 0x2000, typ: MEMMAP_USABLE },
        MemmapEntry { base: 0x8000, len: 0x1000, typ: MEMMAP_RESERVED },
        MemmapEntry { base: 0x10000, len: 0x4000, typ: MEMMAP_USABLE },
        MemmapEntry { base: 0x20000, len: 0x1000, typ: 5 },
    ];
    let mut pages = PageAllocator::new();
    let count = init_regions(&mut pages, &mut entries, hhdm);
    assert_eq!(count, 0x14);
    assert_eq!(
        run_list(&pages),
        vec![(0xffff_8000_0001_0000, 4), (0xffff_8000_0000_1000, 2)]
    );
    assert!(entries[..3].iter().all(|e| e.typ == MEMMAP_RESERVED));
    assert_eq!(entries[3].typ, 5);
    assert_eq!((entries[0].base, entries[0].len), (0x1000, 0x2000));
}

#[test]
fn block_heap_takes_lowest_free_blocks() {
    let start = 0x10_0000;
    let len = HEAP_BLOCK_COUNT * BLOCK_SIZE + HEAP_BLOCK_COUNT + 1;
    let mut heap = Heap::init(start, len);
    assert_eq!(heap.block_count(), HEAP_BLOCK_COUNT);
    let offset = heap.block_offset();
    assert_eq!(offset, start + HEAP_BLOCK_COUNT);
    assert_eq!(heap.get_block_count_from_size(5000), 2);
    assert_eq!(heap.get_block_count_from_size(8192), 2);
    assert_eq!(heap.get_block_count_from_size(0), 0);
    let a = heap.allocate(5000);
    assert_eq!(a, offset);
    let b = heap.allocate(1);
    assert_eq!(b, offset + 2 * BLOCK_SIZE);
    assert_eq!(heap.find_empty_consecutive(1), Some(3));
    heap.dealloc(a, 5000);
    assert_eq!(heap.find_empty_consecutive(2), Some(0));
    assert_eq!(heap.find_empty_consecutive(3), Some(3));
    assert_eq!(heap.allocate(4096), offset);
    assert_eq!(heap.ptr_to_index(offset + 2 * BLOCK_SIZE + 7), 2);
    assert_eq!(heap.index_to_ptr(5), offset + 5 * BLOCK_SIZE);
}

#[test]
fn block_heap_too_large_request_gives_null() {
    let mut heap = Heap::init(0x10_0000, HEAP_BLOCK_COUNT * BLOCK_SIZE + HEAP_BLOCK_COUNT + 1);
    assert_eq!(heap.allocate(HEAP_BLOCK_COUNT * BLOCK_SIZE + 1), 0);
    assert_eq!(heap.find_empty_consecutive(HEAP_BLOCK_COUNT), Some(0));
    assert_eq!(heap.find_empty_consecutive(HEAP_BLOCK_COUNT + 1), None);
}

#[test]
fn block_descriptors() {
    assert!(BlockDesc::new_free().is_free());
    assert!(!BlockDesc::new_allocated().is_free());
}

#[test]
fn heap_grows_by_pages_when_empty() {
    let mut list = HeapList::new();
    let mut pages = PageAllocator::new();
    pages.push_region_unchecked(0x10_0000, 0x1_0000);
    let layout = Layout::from_size_align(100, 8).unwrap();
    assert_eq!(free_list_alloc(&mut list, &mut pages, layout), 0x10_0000);
    assert_eq!(run_list(&pages), vec![(0x10_1000, 15)]);
    assert_eq!(run_list(&list), vec![(0x10_0070, 249)]);
    let small = Layout::from_size_align(16, 16).unwrap();
    assert_eq!(free_list_alloc(&mut list, &mut pages, small), 0x10_0070);
    assert_eq!(run_list(&list), vec![(0x10_0080, 248)]);
    free_list_free(&mut list, 0x10_0070, small);
    assert_eq!(run_list(&list), vec![(0x10_0080, 248), (0x10_0070, 249)]);
}

#[test]
fn heap_refuses_alignment_above_a_block() {
    let mut list = HeapList::new();
    let mut pages = PageAllocator::new();
    pages.push_region_unchecked(0x10_0000, 0x1_0000);
    let layout = Layout::from_size_align(8, 64).unwrap();
    assert_eq!(free_list_alloc(&mut list, &mut pages, layout), 0);
    assert!(run_list(&list).is_empty());
    assert_eq!(run_list(&pages), vec![(0x10_0000, 16)]);
    assert_eq!(HeapError::OutOfSpace.message(), "out of space");
}

#[test]
fn primordial_allocator_bumps() {
    let mut pages = PageAllocator::new();
    pages.push_region_unchecked(0x20_0000, 0x1_0000);
    let mut bump = PrimordialAlloc::new();
    let a = bump.allocate(&mut pages, Layout::from_size_align(10, 1).unwrap());
    assert_eq!(a, 0x20_0000);
    assert_eq!(run_list(&pages), vec![(0x20_8000, 8)]);
    let b = bump.allocate(&mut pages, Layout::from_size_align(8, 8).unwrap());
    assert_eq!(b, 0x20_0010);
    let too_big = bump.allocate(&mut pages, Layout::from_size_align(40000, 1).unwrap());
    assert_eq!(too_big, 0);
    bump.deallocate(b, Layout::from_size_align(8, 8).unwrap());
    let c = bump.allocate(&mut pages, Layout::from_size_align(4, 4).unwrap());
    assert_eq!(c, 0x20_0018);
    assert_eq!(run_list(&pages), vec![(0x20_8000, 8)]);
}

#[test]
fn vmm_maps_at_a_free_range() {
    let mut space = VMM::new_userland(0x5000);
    assert_eq!(space.get_page_map(), 0x5000);
    let req = space
        .map(None, 2, Flags(vmm::RW | vmm::USER), MapTy::Unbacked)
        .unwrap();
    assert_eq!(req.virt, VirtAdr::new(0x10_0000));
    assert_eq!(req.pages, 2);
    assert_eq!(req.phys, PhysAdr::new(0));
    assert!(!req.present && req.no_execute && req.writable && req.user);
    assert!(!req.size_large && !req.size_medium);
    let next = space
        .map(None, 1, Flags(vmm::EXECUTABLE), MapTy::Unbacked)
        .unwrap();
    assert_eq!(next.virt, VirtAdr::new(0x10_2000));
    assert!(!next.no_execute && !next.writable && !next.user);
}

#[test]
fn vmm_maps_at_a_given_address_onto_memory() {
    let mut space = vmm::new_userland(0x5000);
    let req = space
        .map(
            Some(VirtAdr::new(0x20_0000)),
            1,
            Flags(vmm::EXECUTABLE),
            MapTy::Phys { adr: PhysAdr::new(0x5000) },
        )
        .unwrap();
    assert_eq!(req.virt, VirtAdr::new(0x20_0000));
    assert_eq!(req.phys, PhysAdr::new(0x5000));
    assert!(req.present && !req.no_execute);
    let medium = space
        .map(None, 1, Flags(vmm::MEDIUM_PAGES), MapTy::Unbacked)
        .unwrap();
    assert_eq!(medium.virt, VirtAdr::new(0x40_0000));
    assert!(medium.size_medium);
    assert!(MapTy::Phys { adr: PhysAdr::new(0) }.is_phys());
    assert!(!MapTy::Unbacked.is_phys());
}

#[test]
fn vmm_page_sizes_and_flags() {
    assert_eq!(VMM::page_size_from_flags(Flags(vmm::LARGE_PAGES)), 0x4000_0000);
    assert_eq!(VMM::page_size_from_flags(Flags(vmm::MEDIUM_PAGES)), 0x20_0000);
    assert_eq!(VMM::page_size_from_flags(Flags(vmm::RW)), 0x1000);
    let f = Flags(vmm::RW).union(Flags(vmm::USER));
    assert_eq!(f, Flags(vmm::RW | vmm::USER));
    assert!(f.has(vmm::RW) && f.has(vmm::USER) && !f.has(vmm::EXECUTABLE));
}

#[test]
fn vmm_reserve_outside_the_free_ranges_fails() {
    let mut space = VMM::new_userland(0);
    let r = space.alloc_reserve_range(VirtAdr::new(0x1000), 0x1000, 1);
    let e = r.unwrap_err();
    assert_eq!(
        e,
        vmm::Error::AllocatorError(freelist::Error::ReserveError { adr: 0x1000, len: 0x1000 })
    );
    assert_eq!(
        e.message(),
        "allocation error: reserve error: (adr: 0x0000000000001000, len: 0x1000)"
    );
    assert_eq!(space.alloc_reserve_range(VirtAdr::new(0x10_0000), 0x1000, 4), Ok(()));
    assert_eq!(space.alloc_free(VirtAdr::new(0x10_0000), 0x1000, 4), Ok(()));
    assert_eq!(space.alloc_new(0x1000, 1), Ok(VirtAdr::new(0x10_0000)));
}

#[test]
fn vmm_alloc_new_without_room_fails() {
    let mut space = VMM::new_userland(0);
    assert_eq!(
        space.alloc_new(0x4000_0000, 0x2_0000),
        Err(vmm::Error::AllocatorError(freelist::Error::InsufficientSpace))
    );
}

#[test]
fn virtual_memory_maps_small_pages() {
    let mut space = VirtualMemory::new_userland(0x9000);
    assert_eq!(space.get_page_map(), 0x9000);
    let flags = PageFlags {
        present: true,
        writable: true,
        user: true,
        no_execute: false,
        size_large: false,
        size_medium: false,
    };
    let m = space.map(None, 3, virtual_memory::Flags::Phys { flags, phys: 0x7fff });
    assert_eq!((m.virt, m.pages, m.phys), (0x10_0000, 3, 0x7000));
    assert_eq!(m.flags, flags);
    let n = space.map(Some(0x50_0000), 1, virtual_memory::Flags::Phys { flags, phys: 0x1000 });
    assert_eq!((n.virt, n.pages, n.phys), (0x50_0000, 1, 0x1000));
    let other = virtual_memory::new_userland(1);
    assert_eq!(other.get_page_map(), 1);
}

#[test]
fn work_memory_hands_out_front_to_back() {
    let base = 0x40_0000;
    let mut wm = WorkMemory::new(base);
    // nothing can be reserved before the work memory is initialised
    assert!(!wm.has_room(1));
    wm.init();
    assert!(wm.has_room(KWM_LEN - 1));
    assert!(!wm.has_room(KWM_LEN));
    assert_eq!(wm.reserve_amount(0x100), base);
    assert_eq!(wm.reserve_amount(0x20), base + 0x100);
    assert_eq!(wm.reserve_amount(0), base + 0x120);
}

#[test]
fn user_stack_is_mapped_below_the_top() {
    let hhdm = VirtAdr::new(0xffff_8000_0000_0000);
    let mut space = VMM::new_userland(0x5000);
    let mut pages = PageAllocator::new();
    pages.push_region_unchecked(0xffff_8000_0010_0000, 0x10_0000);
    let (top, req) = create_userspace_thread_stack(&mut space, &mut pages, 4, hhdm);
    assert_eq!(top, VirtAdr::new(USER_STACK_BASE + 4 * 4096));
    assert_eq!(req.virt, VirtAdr::new(USER_STACK_BASE));
    assert_eq!(req.pages, 4);
    assert_eq!(req.phys, PhysAdr::new(0x10_0000));
    assert!(req.present && req.writable && req.user && req.no_execute);
    assert_eq!(run_list(&pages), vec![(0xffff_8000_0010_4000, 0xfc)]);
    // the stack range is taken: a second stack there cannot be reserved
    assert!(space.alloc_reserve_range(VirtAdr::new(USER_STACK_BASE), 4096, 1).is_err());
}

#[test]
fn address_lookup_uses_the_page_entry() {
    let v = VirtAdr::new(0x40_1234);
    let present = PageEntry { present: true, adr: PhysAdr::new(0x9000) };
    let absent = PageEntry { present: false, adr: PhysAdr::new(0x9000) };
    assert_eq!(v.to_phys(Some(present)), Some(PhysAdr::new(0x9234)));
    assert_eq!(v.to_phys(Some(absent)), None);
    assert_eq!(v.to_phys(None), None);
    let space = VMM::new_userland(0);
    assert_eq!(space.virt_to_phys(v, Some(present)), Some(PhysAdr::new(0x9234)));
    assert!(space.contains_page(v, Some(present)));
    assert!(!space.contains_page(v, Some(absent)));
    assert!(!space.contains_page(v, None));
}

#[test]
fn user_allocations_are_aligned() {
    let l = Layout::from_size_align(24, 16).unwrap();
    assert_eq!(request_len(l), 40);
    assert_eq!(aligned_address(0x1001, l), 0x1010);
    assert_eq!(aligned_address(0x1010, l), 0x1010);
}

#[test]
fn vmm_map_at_null_maps_the_range_it_takes() {
    let mut space = VMM::new_userland(0);
    let req = space.map(Some(VirtAdr::null()), 1, Flags(vmm::RW), MapTy::Unbacked).unwrap();
    assert_eq!(req.virt, VirtAdr::new(0x10_0000));
    assert_eq!(space.alloc_new(0x1000, 1), Ok(VirtAdr::new(0x10_1000)));
}

#[test]
fn vmm_null_reservation_takes_a_free_range() {
    let mut space = VMM::new_userland(0);
    assert_eq!(space.alloc_reserve_range(VirtAdr::null(), 0x1000, 1), Ok(()));
    // the first free page went to the null reservation
    assert_eq!(space.alloc_new(0x1000, 1), Ok(VirtAdr::new(0x10_1000)));
}

fn kernel_sections() -> ((u64, u64), (u64, u64), (u64, u64)) {
    (
        (0xffff_9000_0000_0010, 0xffff_9000_0000_1800),
        (0xffff_9000_0001_0000, 0xffff_9000_0001_0000),
        (0xffff_9000_0002_0000, 0xffff_9000_0002_1000),
    )
}

#[test]
fn kernel_address_space_plan() {
    let (text, ro, rw) = kernel_sections();
    let hhdm = VirtAdr::new(0xffff_8000_0000_0000);
    let (space, reqs) =
        VMM::init_kernel_vmm(0x7000, hhdm, 0x1000_0000, PhysAdr::new(0x20_0000), text, ro, rw)
            .unwrap();
    assert_eq!(space.get_page_map(), 0x7000);
    assert_eq!(reqs.len(), 4);
    assert_eq!((reqs[0].virt, reqs[0].pages, reqs[0].phys), (hhdm, 0, PhysAdr::new(0)));
    assert!(reqs[0].present && reqs[0].size_large && reqs[0].writable && reqs[0].no_execute);
    assert_eq!(
        (reqs[1].virt, reqs[1].pages, reqs[1].phys),
        (VirtAdr::new(0xffff_9000_0000_0000), 2, PhysAdr::new(0x20_0000))
    );
    assert!(!reqs[1].no_execute && !reqs[1].writable);
    assert_eq!((reqs[2].pages, reqs[2].phys), (0, PhysAdr::new(0x20_2000)));
    assert!(reqs[2].no_execute && !reqs[2].writable);
    assert_eq!(
        (reqs[3].virt, reqs[3].pages, reqs[3].phys),
        (VirtAdr::new(0xffff_9000_0002_0000), 1, PhysAdr::new(0x20_2000))
    );
    assert!(reqs[3].writable && reqs[3].no_execute);
}

#[test]
fn kernel_address_space_maps_the_kernel_in_the_top() {
    let hhdm = VirtAdr::new(0xffff_8000_0000_0000);
    let text = (0xffff_ffff_8000_0000, 0xffff_ffff_8000_2800);
    let ro = (0xffff_ffff_8000_3000, 0xffff_ffff_8000_4000);
    let rw = (0xffff_ffff_8000_4000, 0xffff_ffff_8000_4010);
    let (mut space, reqs) =
        VMM::init_kernel_vmm(0, hhdm, 0x2_0000_0000, PhysAdr::new(0x20_0000), text, ro, rw).unwrap();
    assert_eq!((reqs[0].virt, reqs[0].pages), (hhdm, 8));
    assert_eq!(
        (reqs[1].virt, reqs[1].pages, reqs[1].phys),
        (VirtAdr::new(0xffff_ffff_8000_0000), 3, PhysAdr::new(0x20_0000))
    );
    assert_eq!((reqs[2].pages, reqs[2].phys), (1, PhysAdr::new(0x20_3000)));
    assert_eq!((reqs[3].pages, reqs[3].phys), (1, PhysAdr::new(0x20_4000)));
    // both windows are taken: neither the direct map nor the top can be had again
    assert!(space.alloc_reserve_range(hhdm, 0x1000, 1).is_err());
    assert!(space.alloc_reserve_range(VirtAdr::new(0xffff_ffff_8000_0000), 0x1000, 1).is_err());
    assert!(space.alloc_reserve_range(VirtAdr::new(0xffff_8100_0000_0000), 0x1000, 1).is_ok());
}

#[test]
fn kernel_address_space_stops_at_a_failed_reservation() {
    let (text, ro, rw) = kernel_sections();
    // a direct map outside the kernel's half cannot be reserved
    let r = VMM::init_kernel_vmm(0, VirtAdr::new(0x1000), 0, PhysAdr::new(0x20_0000), text, ro, rw);
    assert_eq!(
        r.err(),
        Some(vmm::Error::AllocatorError(freelist::Error::ReserveError {
            adr: 0x1000,
            len: 0x100_0000_0000
        }))
    );
}
