//! Threads: their identity, their process and their scheduling state.
use vstd::prelude::*;
use crate::adr::{PhysAdr, VirtAdr};
use crate::freelist::{carve, carve_fits, first_container, has_container};
use crate::intrusive::{first_big, has_big, take_result};
use crate::pmm::{alloc_pages, pages_blocks, PageAllocator, PAGE_SIZE};
use crate::text::{decimal, push_decimal};
use crate::vmm::{request_of, Flags, MapRequest, MapTy, RW, USER, VMM};
use vstd::layout::valid_layout;

verus! {

/// The address of a thread.
#[derive(Clone, Copy, Debug, PartialEq, Eq, Structural)]
pub struct ThreadPtr(pub u64);

/// The address of a process.
#[derive(Clone, Copy, Debug, PartialEq, Eq, Structural)]
pub struct ProcessPtr(pub u64);

/// A thread's identifier.
#[derive(Clone, Copy, Debug, PartialEq, Eq, Structural)]
pub struct ThreadId(pub usize);

/// What a thread is doing.
#[derive(Clone, Copy, Debug, PartialEq, Eq, Structural)]
pub enum ThreadStatus {
    Waiting,
    Sleeping,
    Running,
}

/// Whether the scheduler should keep running a thread.
#[derive(Clone, Copy, Debug, PartialEq, Eq, Structural)]
pub enum ThreadScheduleStatus {
    Sleep,
    Running,
}

impl ThreadId {
    /// The identifier as text: its number in decimal.
    pub open spec fn text(self) -> Seq<char> {
        decimal(self.0 as nat)
    }

    /// The identifier as text: its number in decimal.
    pub fn to_text(self) -> (r: String)
        ensures
            r@ == self.text(),
    {
        let mut out = String::new();
        push_decimal(&mut out, self.0 as u64);
        out
    }

    /// The identifier with number `index`.
    pub fn from_index(index: usize) -> (r: Self)
        ensures
            r.0 == index,
    {
        ThreadId(index)
    }

    /// A fresh identifier; every thread gets number zero for now.
    pub fn gen() -> (r: Self)
        ensures
            r.0 == 0,
    {
        ThreadId(0)
    }

    /// The identifier with number `id`, reserved by the caller.
    pub fn resv_id(id: usize) -> (r: Self)
        ensures
            r.0 == id,
    {
        Self::from_index(id)
    }
}

/// A thread: its architecture state `A`, its saved register frame `F`, its
/// identifier, its process and its scheduling state.
pub struct Thread<A, F> {
    arch: A,
    id: ThreadId,
    proc: ProcessPtr,
    stackframe: F,
    stack: u64,
    status: ThreadStatus,
    schedule_status: ThreadScheduleStatus,
}

impl<A, F> Thread<A, F> {
    pub closed spec fn spec_arch(&self) -> A {
        self.arch
    }

    pub closed spec fn spec_id(&self) -> ThreadId {
        self.id
    }

    pub closed spec fn spec_proc(&self) -> ProcessPtr {
        self.proc
    }

    pub closed spec fn spec_stackframe(&self) -> F {
        self.stackframe
    }

    pub closed spec fn spec_stack(&self) -> u64 {
        self.stack
    }

    pub closed spec fn spec_status(&self) -> ThreadStatus {
        self.status
    }

    pub closed spec fn spec_schedule_status(&self) -> ThreadScheduleStatus {
        self.schedule_status
    }

    /// A new thread of process `proc`: waiting, to be kept running once
    /// scheduled, with no stack of its own yet.
    pub fn new(arch: A, id: ThreadId, proc: ProcessPtr, stackframe: F) -> (r: Self)
        ensures
            r.spec_arch() == arch,
            r.spec_id() == id,
            r.spec_proc() == proc,
            r.spec_stackframe() == stackframe,
            r.spec_stack() == 0,
            r.spec_status() == ThreadStatus::Waiting,
            r.spec_schedule_status() == ThreadScheduleStatus::Running,
    {
        Thread {
            arch,
            id,
            proc,
            stackframe,
            stack: 0,
            status: ThreadStatus::Waiting,
            schedule_status: ThreadScheduleStatus::Running,
        }
    }

    /// The thread's identifier.
    pub fn get_id(&self) -> (r: ThreadId)
        ensures
            r == self.spec_id(),
    {
        self.id
    }

    /// The architecture state, for changing.
    pub fn arch_mut(&mut self) -> (r: &mut A)
        ensures
            *r == old(self).spec_arch(),
            final(self).spec_arch() == *final(r),
            final(self).spec_id() == old(self).spec_id(),
            final(self).spec_proc() == old(self).spec_proc(),
            final(self).spec_stackframe() == old(self).spec_stackframe(),
            final(self).spec_stack() == old(self).spec_stack(),
            final(self).spec_status() == old(self).spec_status(),
            final(self).spec_schedule_status() == old(self).spec_schedule_status(),
    {
        &mut self.arch
    }

    /// The architecture state.
    pub fn arch(&self) -> (r: &A)
        ensures
            *r == self.spec_arch(),
    {
        &self.arch
    }

    /// Replaces the saved register frame.
    pub fn set_stackframe(&mut self, stackframe: F)
        ensures
            final(self).spec_stackframe() == stackframe,
            final(self).spec_arch() == old(self).spec_arch(),
            final(self).spec_id() == old(self).spec_id(),
            final(self).spec_proc() == old(self).spec_proc(),
            final(self).spec_stack() == old(self).spec_stack(),
            final(self).spec_status() == old(self).spec_status(),
            final(self).spec_schedule_status() == old(self).spec_schedule_status(),
    {
        self.stackframe = stackframe;
    }

    /// The saved register frame.
    pub fn get_stackframe(&self) -> (r: &F)
        ensures
            *r == self.spec_stackframe(),
    {
        &self.stackframe
    }

    /// Moves the thread to process `proc`.
    pub fn set_proc(&mut self, proc: ProcessPtr)
        ensures
            final(self).spec_proc() == proc,
            final(self).spec_arch() == old(self).spec_arch(),
            final(self).spec_id() == old(self).spec_id(),
            final(self).spec_stackframe() == old(self).spec_stackframe(),
            final(self).spec_stack() == old(self).spec_stack(),
            final(self).spec_status() == old(self).spec_status(),
            final(self).spec_schedule_status() == old(self).spec_schedule_status(),
    {
        self.proc = proc;
    }

    /// The thread's process.
    pub fn get_proc(&self) -> (r: ProcessPtr)
        ensures
            r == self.spec_proc(),
    {
        self.proc
    }

    /// What the thread is doing.
    pub fn get_status(&self) -> (r: ThreadStatus)
        ensures
            r == self.spec_status(),
    {
        self.status
    }

    /// Records what the thread is doing.
    pub fn set_status(&mut self, status: ThreadStatus)
        ensures
            final(self).spec_status() == status,
            final(self).spec_arch() == old(self).spec_arch(),
            final(self).spec_id() == old(self).spec_id(),
            final(self).spec_proc() == old(self).spec_proc(),
            final(self).spec_stackframe() == old(self).spec_stackframe(),
            final(self).spec_stack() == old(self).spec_stack(),
            final(self).spec_schedule_status() == old(self).spec_schedule_status(),
    {
        self.status = status;
    }

    /// Whether the scheduler should keep running the thread.
    pub fn get_schedule_status(&self) -> (r: ThreadScheduleStatus)
        ensures
            r == self.spec_schedule_status(),
    {
        self.schedule_status
    }

    /// Records whether the scheduler should keep running the thread.
    pub fn set_schedule_status(&mut self, status: ThreadScheduleStatus)
        ensures
            final(self).spec_schedule_status() == status,
            final(self).spec_arch() == old(self).spec_arch(),
            final(self).spec_id() == old(self).spec_id(),
            final(self).spec_proc() == old(self).spec_proc(),
            final(self).spec_stackframe() == old(self).spec_stackframe(),
            final(self).spec_stack() == old(self).spec_stack(),
            final(self).spec_status() == old(self).spec_status(),
    {
        self.schedule_status = status;
    }
}

/// Releases a thread; nothing is released yet.
pub fn free(thread: ThreadPtr) {
}

/// The lowest address of a user thread's stack: 512 pages and a guard of two
/// pages below the top of the lower half.
pub const USER_STACK_BASE: u64 = 0x7FFF_FFDF_E000;

/// The physical address of the run that `count` pages are taken from.
pub open spec fn stack_phys(pages: Seq<crate::intrusive::Run>, count: usize, hhdm_base: u64) -> u64 {
    (pages[first_big(pages, pages_blocks(count))].adr - hhdm_base) as u64
}

/// Allocates `count` pages and maps them writable for user mode at
/// `USER_STACK_BASE` in `vmm`; returns the top of the stack and the page-table
/// entries to write. The pages must be available, the stack range free in
/// `vmm`, and the pages' physical address page-aligned.
pub fn create_userspace_thread_stack(
    vmm: &mut VMM,
    pages: &mut PageAllocator,
    count: usize,
    hhdm_base: VirtAdr,
) -> (r: (VirtAdr, MapRequest))
    requires
        old(vmm).wf(),
        old(pages).wf(),
        1 <= count <= 512,
        has_big(old(pages)@, pages_blocks(count)),
        old(pages)@[first_big(old(pages)@, pages_blocks(count))].adr + pages_blocks(count) * PAGE_SIZE
            <= u64::MAX,
        old(pages)@[first_big(old(pages)@, pages_blocks(count))].adr >= hhdm_base.0,
        stack_phys(old(pages)@, count, hhdm_base.0) % (PAGE_SIZE as u64) == 0,
        has_container(old(vmm).free(), USER_STACK_BASE, (count * PAGE_SIZE) as usize),
        carve_fits(
            old(vmm).free(),
            first_container(old(vmm).free(), USER_STACK_BASE, (count * PAGE_SIZE) as usize),
            USER_STACK_BASE,
            (count * PAGE_SIZE) as usize,
        ),
    ensures
        final(vmm).wf(),
        final(pages).wf(),
        r.0.0 == USER_STACK_BASE + count * PAGE_SIZE,
        r.1 == request_of(
            VirtAdr(USER_STACK_BASE),
            count,
            Flags(RW | USER),
            MapTy::Phys { adr: PhysAdr(stack_phys(old(pages)@, count, hhdm_base.0)) },
        ),
        final(pages)@ == take_result(
            old(pages)@,
            pages_blocks(count),
            first_big(old(pages)@, pages_blocks(count)),
            PAGE_SIZE as u64,
        ),
        final(vmm).free() == carve(
            old(vmm).free(),
            first_container(old(vmm).free(), USER_STACK_BASE, (count * PAGE_SIZE) as usize),
            USER_STACK_BASE,
            (count * PAGE_SIZE) as usize,
        ),
{
    let total_bytes = count * PAGE_SIZE;
    proof {
        vstd::arithmetic::power2::lemma2_to64();
        assert(valid_layout((count * PAGE_SIZE) as usize, PAGE_SIZE)) by {
            reveal(vstd::arithmetic::power2::is_pow2);
            reveal_with_fuel(vstd::arithmetic::power2::is_pow2, 13);
        }
    }
    let alloc = alloc_pages(pages, count);
    let virt_adr = VirtAdr::new(USER_STACK_BASE);
    let phys = alloc.phys(hhdm_base);
    let flags = Flags(RW).union(Flags(USER));
    proof {
        assert(RW | USER == 18u64) by (bit_vector);
        assert(18u64 & 4u64 != 4u64 && 18u64 & 8u64 != 8u64) by (bit_vector);
    }
    let req = match vmm.map(Some(virt_adr), count, flags, MapTy::Phys { adr: phys }) {
        Ok(req) => req,
        Err(_) => {
            proof {
                assert(false);
            }
            return (virt_adr, MapRequest {
                virt: virt_adr,
                pages: count,
                phys,
                present: false,
                no_execute: false,
                size_large: false,
                size_medium: false,
                writable: false,
                user: false,
            });
        },
    };
    (VirtAdr::new(req.virt.adr() + total_bytes as u64), req)
}

} // verus!
