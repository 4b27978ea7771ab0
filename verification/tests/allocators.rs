use kernel::freelist::{AllocError, Error, FreeList, FreeListAllocator, Node};
use kernel::intrusive::{Error as BlockError, IntrusiveFreeList, Run};
use kernel::layout::Layout;

fn regions(list: &FreeList) -> Vec<(u64, usize)> {
    list.regions().iter().map(|n| (n.start, n.len)).collect()
}

fn runs<const B: usize>(list: &IntrusiveFreeList<B>) -> Vec<(u64, u64)> {
    list.runs().iter().map(|r| (r.adr, r.blocks)).collect()
}

#[test]
fn node_new_keeps_range() {
    let n = Node::new(0x1000, 0x20);
    assert_eq!(n.start, 0x1000);
    assert_eq!(n.len, 0x20);
}

#[test]
fn push_region_merges_touching_regions() {
    let mut list = FreeList::new();
    list.push_region(0x1000, 0x1000).unwrap();
    list.push_region(0x3000, 0x1000).unwrap();
    assert_eq!(regions(&list), vec![(0x3000, 0x1000), (0x1000, 0x1000)]);
    list.push_region(0x2000, 0x1000).unwrap();
    assert_eq!(regions(&list), vec![(0x1000, 0x3000)]);
}

#[test]
fn push_region_of_nothing_is_dropped() {
    let mut list = FreeList::new();
    list.push_region(0x1000, 0).unwrap();
    assert!(regions(&list).is_empty());
}

#[test]
fn alloc_from_aligned_region_shortens_it() {
    let mut list = FreeList::new();
    list.push_region(0x1000, 0x3000).unwrap();
    assert_eq!(list.alloc_aligned_bytes(0x1000, 0x1000), Ok(0x1000));
    assert_eq!(regions(&list), vec![(0x2000, 0x2000)]);
    assert_eq!(list.alloc_aligned_bytes(0x1000, 0x2000), Ok(0x2000));
    assert!(regions(&list).is_empty());
}

#[test]
fn alloc_from_unaligned_region_splits_it() {
    let mut list = FreeList::new();
    list.push_region(0x1800, 0x3000).unwrap();
    assert_eq!(list.alloc_aligned_bytes(0x1000, 0x1000), Ok(0x2000));
    assert_eq!(regions(&list), vec![(0x3000, 0x1800), (0x1800, 0x800)]);
}

#[test]
fn alloc_takes_the_first_region_that_fits() {
    let mut list = FreeList::new();
    list.push_region(0x10000, 0x4000).unwrap();
    list.push_region(0x1000, 0x100).unwrap();
    assert_eq!(list.alloc_aligned_bytes(8, 0x200), Ok(0x10000));
    assert_eq!(regions(&list), vec![(0x1000, 0x100), (0x10200, 0x3e00)]);
}

#[test]
fn alloc_without_room_fails() {
    let mut list = FreeList::new();
    list.push_region(0x1000, 0x100).unwrap();
    assert_eq!(list.alloc_aligned_bytes(8, 0x200), Err(Error::InsufficientSpace));
    assert_eq!(regions(&list), vec![(0x1000, 0x100)]);
}

#[test]
fn alloc_layout_and_typed() {
    let mut list = FreeList::new();
    list.push_region(0x1004, 0x100).unwrap();
    let layout = Layout::from_size_align(16, 16).unwrap();
    assert_eq!(list.alloc_layout(layout), Ok(0x1010));
    assert_eq!(list.alloc_typed::<u64>(), Ok(0x1020));
    assert_eq!(regions(&list), vec![(0x1028, 0xdc), (0x1004, 0xc)]);
}

#[test]
fn free_bytes_gives_the_range_back() {
    let mut list = FreeList::new();
    list.push_region(0x1000, 0x3000).unwrap();
    let a = list.alloc_aligned_bytes(0x1000, 0x1000).unwrap();
    list.free_bytes(a, 0x1000).unwrap();
    assert_eq!(regions(&list), vec![(0x1000, 0x3000)]);
    list.free::<u64>(0x8000).unwrap();
    assert_eq!(regions(&list), vec![(0x8000, 8), (0x1000, 0x3000)]);
}

#[test]
fn contains_range_sees_starts_and_ends() {
    let mut list = FreeList::new();
    list.push_region(0x1000, 0x1000).unwrap();
    assert!(list.contains_range(0x1800, 0x10));
    assert!(list.contains_range(0x800, 0x900));
    assert!(!list.contains_range(0x2000, 0x10));
    assert!(!list.contains_range(0x0, 0x1000));
}

#[test]
fn reserve_bytes_cuts_out_the_range() {
    let mut list = FreeList::new();
    list.push_region(0x1000, 0x4000).unwrap();
    assert_eq!(list.reserve_bytes(0x2000, 0x1000), Ok(()));
    assert_eq!(regions(&list), vec![(0x3000, 0x2000), (0x1000, 0x1000)]);
    assert_eq!(
        list.reserve_bytes(0x2800, 0x1000),
        Err(Error::ReserveError { adr: 0x2800, len: 0x1000 })
    );
    assert_eq!(list.reserve_bytes(0x2800, 0), Ok(()));
}

#[test]
fn push_node_raw_puts_at_head_unmerged() {
    let mut list = FreeList::new();
    list.push_region(0x1000, 0x1000).unwrap();
    list.push_node_raw(Node::new(0x2000, 0x1000));
    assert_eq!(regions(&list), vec![(0x2000, 0x1000), (0x1000, 0x1000)]);
}

#[test]
fn block_list_push_checks_alignment() {
    let mut list = IntrusiveFreeList::<16>::new();
    assert_eq!(list.push_region_checked(0x1004, 0x100), Err(BlockError::UnalignedRegion));
    assert_eq!(list.push_region_checked(0x1008, 0x8), Err(BlockError::UnalignedRegionSize));
    assert_eq!(list.push_region_checked(0x1000, 0x108), Err(BlockError::UnalignedRegionSize));
    assert!(runs(&list).is_empty());
    assert_eq!(list.push_region_checked(0x1008, 0x100), Ok(()));
    assert_eq!(runs(&list), vec![(0x1008, 16)]);
}

#[test]
fn block_list_push_takes_only_whole_blocks() {
    let mut list = IntrusiveFreeList::<16>::new();
    // 40 bytes at an 8-aligned address hold two whole blocks; the last 8 bytes stay out
    list.push_region_unchecked(0x1008, 0x28);
    assert_eq!(runs(&list), vec![(0x1008, 2)]);
    list.push_region_unchecked(0x3000, 0x8);
    assert_eq!(runs(&list), vec![(0x3000, 0), (0x1008, 2)]);
}

#[test]
fn block_list_bytes_forms() {
    let mut list = IntrusiveFreeList::<16>::new();
    list.push_region_unchecked(0x2000, 0x40);
    assert_eq!(list.alloc_bytes(20), Ok(0x2000));
    assert_eq!(runs(&list), vec![(0x2020, 2)]);
    assert_eq!(list.alloc_bytes(0), Ok(0x2020));
    assert_eq!(runs(&list), vec![(0x2030, 1)]);
    list.free_bytes(0x9000, 17);
    assert_eq!(runs(&list), vec![(0x9000, 2), (0x2030, 1)]);
}

#[test]
fn block_list_alloc_takes_from_first_big_run() {
    let mut list = IntrusiveFreeList::<16>::new();
    list.push_region_unchecked(0x4000, 0x100);
    list.push_region_unchecked(0x1000, 0x20);
    let layout = Layout::from_size_align(40, 8).unwrap();
    assert_eq!(list.alloc_layout(layout), Ok(0x4000));
    assert_eq!(runs(&list), vec![(0x1000, 2), (0x4030, 13)]);
    let zero = Layout::from_size_align(0, 1).unwrap();
    assert_eq!(list.alloc_layout(zero), Ok(0x1000));
    assert_eq!(runs(&list), vec![(0x1010, 1), (0x4030, 13)]);
    assert_eq!(list.alloc_typed::<[u8; 16]>(), Ok(0x1010));
    assert_eq!(runs(&list), vec![(0x4030, 13)]);
}

#[test]
fn block_list_alloc_errors() {
    let mut list = IntrusiveFreeList::<16>::new();
    list.push_region_unchecked(0x1000, 0x20);
    let big_align = Layout::from_size_align(16, 32).unwrap();
    assert_eq!(list.alloc_layout(big_align), Err(BlockError::NonBlockAlignedAllocation));
    let too_big = Layout::from_size_align(64, 8).unwrap();
    assert_eq!(list.alloc_layout(too_big), Err(BlockError::InsufficientSpace));
    assert_eq!(runs(&list), vec![(0x1000, 2)]);
}

#[test]
fn block_list_free_pushes_unmatched_range() {
    let mut list = IntrusiveFreeList::<16>::new();
    list.push_region_unchecked(0x1000, 0x20);
    let layout = Layout::from_size_align(20, 4).unwrap();
    list.free_layout(0x8000, layout);
    assert_eq!(runs(&list), vec![(0x8000, 2), (0x1000, 2)]);
}

#[test]
fn block_list_free_merges_with_later_run() {
    let mut list = IntrusiveFreeList::<16>::new();
    list.push_region_unchecked(0x2000, 0x20);
    list.push_region_unchecked(0x8000, 0x20);
    // the freed range 0x1fe0 .. 0x2000 ends where the second run begins
    let layout = Layout::from_size_align(32, 8).unwrap();
    list.free_layout(0x1fe0, layout);
    assert_eq!(runs(&list), vec![(0x8000, 2), (0x1fe0, 4)]);
}

#[test]
fn block_list_free_before_head_keeps_head() {
    let mut list = IntrusiveFreeList::<16>::new();
    list.push_region_unchecked(0x2000, 0x20);
    let layout = Layout::from_size_align(16, 8).unwrap();
    list.free_layout(0x1ff0, layout);
    assert_eq!(runs(&list), vec![(0x2000, 2), (0x1ff0, 3)]);
}

#[test]
fn block_list_free_grows_empty_run() {
    let mut list = IntrusiveFreeList::<16>::new();
    list.push_region_unchecked(0x3000, 0);
    list.free::<u64>(0x9000);
    assert_eq!(runs(&list), vec![(0x3000, 1)]);
}

#[test]
fn block_size_and_count() {
    assert_eq!(IntrusiveFreeList::<16>::block_size(), 16);
    assert_eq!(IntrusiveFreeList::<16>::block_cnt(0), 0);
    assert_eq!(IntrusiveFreeList::<16>::block_cnt(1), 1);
    assert_eq!(IntrusiveFreeList::<16>::block_cnt(32), 2);
    assert_eq!(IntrusiveFreeList::<16>::block_cnt(33), 3);
    let _ = Run { adr: 1, blocks: 1 };
}

#[test]
fn layout_checks_alignment_and_size() {
    assert!(Layout::from_size_align(8, 3).is_none());
    assert!(Layout::from_size_align(8, 0).is_none());
    assert!(Layout::from_size_align(usize::MAX, 1).is_none());
    let l = Layout::from_size_align(24, 8).unwrap();
    assert_eq!((l.size(), l.align()), (24, 8));
    let t = Layout::new::<u32>();
    assert_eq!((t.size(), t.align()), (4, 4));
}

#[test]
fn free_list_describes_its_regions() {
    let mut list = FreeList::new();
    assert_eq!(list.describe(), "FreeLists { regions: \"[ ]\" }");
    list.push_region(0x1000, 0x2000).unwrap();
    list.push_region(0x8000, 0x10).unwrap();
    assert_eq!(
        list.describe(),
        "FreeLists { regions: \"[ 0000000000008000:000000000000800F (10), 0000000000001000:0000000000002FFF (2000), ]\" }"
    );
}

#[test]
fn free_list_error_messages() {
    let e = Error::ReserveError { adr: 0xabc, len: 0x1f };
    assert_eq!(e.message(), "reserve error: (adr: 0x0000000000000abc, len: 0x1f)");
    assert_eq!(Error::InsufficientSpace.message(), "insufficient space");
    assert_eq!(BlockError::NonBlockAlignedAllocation.message(), "alignment is not block aligned");
    assert_eq!(BlockError::InsufficientSpace.message(), "out of space");
    assert_eq!(BlockError::UnalignedRegionSize.message(), "insufficient region size");
    assert_eq!(BlockError::UnalignedRegion.message(), "unaligned region");
}

#[test]
fn free_list_allocator_hands_out_non_null_memory() {
    let mut a = FreeListAllocator::new();
    a.lock().push_region(0, 0x100).unwrap();
    a.lock().push_region(0x1000, 0x100).unwrap();
    let l = Layout::from_size_align(0x10, 0x10).unwrap();
    // the head region starts at 0x1000
    assert_eq!(a.allocate(l), Ok(0x1000));
    assert_eq!(a.global_alloc(l), 0x1010);
    let big = Layout::from_size_align(0x1000, 8).unwrap();
    assert_eq!(a.allocate(big), Err(AllocError));
    assert_eq!(a.global_alloc(big), 0);
    a.deallocate(0x1000, l);
    a.global_dealloc(0x1010, l);
    assert_eq!(
        a.lock().regions().iter().map(|n| (n.start, n.len)).collect::<Vec<_>>(),
        vec![(0x1000, 0x100), (0, 0x100)]
    );
}

#[test]
fn free_list_allocator_refuses_null() {
    let mut a = FreeListAllocator::new();
    a.lock().push_region(0, 0x100).unwrap();
    let l = Layout::from_size_align(8, 8).unwrap();
    // the list hands out address 0, which the allocator reports as a failure
    assert_eq!(a.allocate(l), Err(AllocError));
    assert_eq!(
        a.lock().regions().iter().map(|n| (n.start, n.len)).collect::<Vec<_>>(),
        vec![(8, 0xf8)]
    );
}
