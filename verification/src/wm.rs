//! The kernel's work memory: a fixed block handed out front to back, never
//! given back.
use vstd::prelude::*;

verus! {

/// The size of the work memory in bytes.
pub const KWM_LEN: usize = 4096 * 4097;

/// The work memory at `base` and the next address to hand out. Until `init`
/// runs the next address is `usize::MAX`, so nothing can be reserved.
pub struct WorkMemory {
    base: usize,
    cur: usize,
}

impl WorkMemory {
    /// The work memory lies inside the address space.
    #[verifier::type_invariant]
    spec fn inv(self) -> bool {
        self.base + KWM_LEN <= usize::MAX
    }

    /// The first address of the work memory.
    pub closed spec fn spec_base(&self) -> usize {
        self.base
    }

    /// The next address to hand out.
    pub closed spec fn spec_cur(&self) -> usize {
        self.cur
    }

    /// The work memory at `base`, not yet initialised.
    pub fn new(base: usize) -> (r: Self)
        requires
            base + KWM_LEN <= usize::MAX,
        ensures
            r.spec_base() == base,
            r.spec_cur() == usize::MAX,
    {
        WorkMemory { base, cur: usize::MAX }
    }

    /// Starts handing out from the first address.
    pub fn init(&mut self)
        ensures
            final(self).spec_base() == old(self).spec_base(),
            final(self).spec_cur() == old(self).spec_base(),
    {
        proof {
            use_type_invariant(&*self);
        }
        self.cur = self.base;
    }

    /// Whether `amount` more bytes can be reserved: the next address moved on
    /// by `amount` (saturating) stays below the end of the work memory.
    pub open spec fn can_reserve(&self, amount: usize) -> bool {
        (if self.spec_cur() + amount > usize::MAX {
            usize::MAX as int
        } else {
            self.spec_cur() + amount
        }) < self.spec_base() + KWM_LEN
    }

    /// Whether `amount` more bytes can be reserved.
    pub fn has_room(&self, amount: usize) -> (r: bool)
        ensures
            r == self.can_reserve(amount),
    {
        proof {
            use_type_invariant(self);
        }
        (self.cur.saturating_add(amount) as u128) < self.base as u128 + KWM_LEN as u128
    }

    /// Hands out the next `amount` bytes; there must be room for them.
    pub fn reserve_amount(&mut self, amount: usize) -> (r: usize)
        requires
            old(self).can_reserve(amount),
        ensures
            r == old(self).spec_cur(),
            final(self).spec_cur() == old(self).spec_cur() + amount,
            final(self).spec_base() == old(self).spec_base(),
    {
        proof {
            use_type_invariant(&*self);
        }
        let ptr = self.cur;
        self.cur = self.cur + amount;
        ptr
    }
}

} // verus!
