//! The arithmetic of a user program's allocator, which asks the kernel for
//! memory and aligns what it gets.
use vstd::prelude::*;

use crate::adr::ceil_bits;
use crate::layout::Layout;

verus! {

/// The bytes to ask the kernel for so that an aligned block of
/// `layout.size()` bytes fits in them: the size plus the alignment.
pub fn request_len(layout: Layout) -> (r: usize)
    requires
        layout.size() + layout.align() <= usize::MAX,
    ensures
        r == layout.size() + layout.align(),
{
    layout.size() + layout.align()
}

/// The address handed out from the kernel's block at `ptr`: `ptr` rounded up
/// to `layout.align()`.
pub fn aligned_address(ptr: u64, layout: Layout) -> (r: u64)
    requires
        ptr + layout.align() - 1 <= u64::MAX,
    ensures
        r == ceil_bits(ptr, layout.align()),
        r % (layout.align() as u64) == 0,
        ptr <= r < ptr + layout.align(),
{
    let align = layout.align();
    proof {
        crate::adr::lemma_ceil_bits(ptr, align);
    }
    let mask = align as u64 - 1;
    (ptr + mask) & !mask
}

} // verus!
