# kernel

The logic of a small x86-64 kernel, written in Verus and proved against its
contracts.

- `src/` is the library. Each module states what its functions do over
  mathematical models (`Seq`, `Set`, integers) and proves it:
  - `freelist`, `intrusive`, `block_heap`, `pmm`, `heap`, `wm`, `user_heap`:
    the memory allocators, with laws on the addresses they cover;
  - `vmm`, `virtual_memory`, `adr`: address spaces and address arithmetic;
    mapping requests, and the plan of the kernel's own address space, come
    back as values describing the page-table entries to write;
  - `ring`, `thread_sched`, `proc_scheduler`, `process`, `thread`: run queues,
    schedulers and process tables;
  - `locked`: the decisions of the spin locks, with the CPU's interrupt flag
    passed in and out;
  - `elf`, `text`, `stack_walk`, `mmap`, `layout`, `util`: the ELF header
    reader, number formatting and small types.
- `tests/` runs the library on concrete values.
- `app/` holds what the library leaves to its caller: global state behind spin
  locks, raw memory, threads reached through their addresses, and the boot
  loader's memory map.
