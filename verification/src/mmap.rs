//! The requests and answers of the memory-mapping system calls.
use vstd::prelude::*;

verus! {

/// A mapping onto virtual memory.
#[derive(Clone, Copy, Debug, PartialEq, Eq, Structural)]
pub struct VirtMap {
    /// Force a specific physical address.
    pub f_phy_adr: bool,
    /// The physical address used with `f_phy_adr`.
    pub phys_adr: usize,
}

/// The page size of a mapping.
#[derive(Clone, Copy, Debug, PartialEq, Eq, Structural)]
pub enum MapSize {
    /// Small page size used by a user process.
    UserSmall,
    /// Large page size used by a user process.
    UserLarge,
    /// Small page size used by the kernel.
    KernelSmall,
    /// Large page size used by the kernel.
    KernelLarge,
}

/// What to map.
#[derive(Clone, Copy, Debug, PartialEq, Eq, Structural)]
pub enum MMapTy {
    /// Map to physical memory.
    Virtual(VirtMap),
}

/// A mapping request.
#[derive(Clone, Copy, Debug, PartialEq, Eq, Structural)]
pub struct MMap {
    pub ty: MMapTy,
    pub size: MapSize,
}

/// An unmapping request.
#[derive(Clone, Copy, Debug, PartialEq, Eq, Structural)]
pub struct MUnmap {
    pub size: MapSize,
}

/// The answer to a mapping request: the pages mapped.
#[derive(Clone, Copy, Debug, PartialEq, Eq, Structural)]
pub enum MMapResult {
    Mapped(u64),
}

/// The answer to an unmapping request: the pages unmapped.
#[derive(Clone, Copy, Debug, PartialEq, Eq, Structural)]
pub enum MUnmapResult {
    Unmapped(u64),
}

} // verus!
