//! The verified core of a small x86-64 kernel: its allocators (free lists,
//! block heap, page allocator, bump allocators), ring buffer, ELF header
//! reader, address arithmetic, address spaces, spin-lock decisions and
//! schedulers.
pub mod adr;
pub mod block_heap;
pub mod elf;
pub mod freelist;
pub mod heap;
pub mod intrusive;
pub mod layout;
pub mod locked;
pub mod mmap;
pub mod pmm;
pub mod proc_scheduler;
pub mod process;
pub mod ring;
pub mod stack_walk;
pub mod text;
pub mod thread;
pub mod thread_sched;
pub mod user_heap;
pub mod util;
pub mod virtual_memory;
pub mod vmm;
pub mod wm;
