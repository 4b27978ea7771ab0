use std::cell::RefCell;

use kernel::heap::Error as HeapError;
use kernel::locked::{LockPrimitive, Locked, ManualLock, ThreadLocked};
use kernel::mmap::{MMap, MMapResult, MMapTy, MUnmap, MUnmapResult, MapSize, VirtMap};
use kernel::proc_scheduler::{self, ProcRef, Scheduler as ProcScheduler, StepAction};
use kernel::process::{Error as ProcessError, Process, ProcessId, ProcessTable, MAX_PROCESSES};
use kernel::stack_walk::{frame_text, StackWalk};
use kernel::thread::{self, ProcessPtr, Thread, ThreadId, ThreadPtr, ThreadScheduleStatus, ThreadStatus};
use kernel::thread_sched::{self, resume, Scheduler as ThreadScheduler};
use kernel::util::delay;
use kernel::vmm;

#[test]
fn process_table_hands_out_identifiers_in_order() {
    let mut table = ProcessTable::new();
    assert_eq!(table.get(ProcessId(0)), None);
    assert_eq!(table.new_proc(ProcessPtr(0x1000)), Ok((ProcessPtr(0x1000), ProcessId(0))));
    assert_eq!(table.new_proc(ProcessPtr(0x2000)), Ok((ProcessPtr(0x2000), ProcessId(1))));
    assert_eq!(table.get(ProcessId(0)), Some(ProcessPtr(0x1000)));
    assert_eq!(table.get(ProcessId(1)), Some(ProcessPtr(0x2000)));
    assert_eq!(table.get(ProcessId((MAX_PROCESSES - 1) as u16)), None);
}

#[test]
fn process_threads() {
    let mut p = Process::new(vmm::new_userland(0x3000), ProcessId(4));
    assert!(p.threads.is_empty());
    assert_eq!(p.add_thread(ThreadPtr(0x10)), Ok(()));
    assert_eq!(p.add_thread(ThreadPtr(0x20)), Ok(()));
    assert_eq!(p.threads, vec![ThreadPtr(0x10), ThreadPtr(0x20)]);
    assert_eq!(p.remove_thread(ThreadPtr(0x10)), Ok(()));
    assert_eq!(p.threads.len(), 2);
    assert_eq!(p.id, ProcessId(4));
    assert_eq!(p.vmm.get_page_map(), 0x3000);
}

#[test]
fn identifiers_as_text() {
    assert_eq!(ProcessId(42).to_text(), "42");
    assert_eq!(ThreadId(0).to_text(), "0");
    assert_eq!(ThreadId(1234).to_text(), "1234");
    let e = ProcessError::HeapAllocationError(HeapError::OutOfSpace);
    assert_eq!(e.message(), "heap allocation error: out of space");
}

#[test]
fn process_scheduler_cursor_goes_round() {
    let mut s = ProcScheduler::new();
    assert_eq!(s.next(), None);
    s.push(ProcessId(1));
    s.push(ProcessId(2));
    proc_scheduler::schedule(&mut s, ProcessId(3));
    assert_eq!(s.get(0), Some(ProcessId(1)));
    assert_eq!(s.next(), Some(ProcessId(2)));
    assert_eq!(s.get(5), Some(ProcessId(3)));
    assert_eq!(s.index_in_steps(4), 1);
    s.advance();
    // after advancing, the process at the cursor is the one that was next
    assert_eq!(s.get(0), Some(ProcessId(2)));
    s.advance();
    s.advance();
    assert_eq!(s.get(0), Some(ProcessId(1)));
}

#[test]
fn process_scheduler_steps_save_and_run() {
    let mut table = ProcessTable::new();
    table.new_proc(ProcessPtr(0x1000)).unwrap();
    table.new_proc(ProcessPtr(0x2000)).unwrap();
    let mut s = ProcScheduler::new();
    assert_eq!(s.step(&table), StepAction { save: None, run: None });
    s.push(ProcessId(0));
    s.push(ProcessId(1));
    let first = s.step(&table);
    assert_eq!(
        first,
        StepAction { save: None, run: Some(ProcRef { id: ProcessId(1), ptr: ProcessPtr(0x2000) }) }
    );
    let second = s.step(&table);
    assert_eq!(
        second,
        StepAction {
            save: Some(ProcRef { id: ProcessId(1), ptr: ProcessPtr(0x2000) }),
            run: Some(ProcRef { id: ProcessId(0), ptr: ProcessPtr(0x1000) }),
        }
    );
    assert_eq!(s.get_proc(&table, ProcessId(1)), Some(ProcessPtr(0x2000)));
    assert_eq!(s.get_proc(&table, ProcessId(2)), None);
}

#[test]
fn process_scheduler_skips_unknown_process() {
    let mut table = ProcessTable::new();
    table.new_proc(ProcessPtr(0x1000)).unwrap();
    let mut s = ProcScheduler::new();
    s.push(ProcessId(0));
    s.push(ProcessId(9));
    let a = s.step(&table);
    assert_eq!(a, StepAction { save: None, run: None });
    let b = s.step(&table);
    assert_eq!(b.run, Some(ProcRef { id: ProcessId(0), ptr: ProcessPtr(0x1000) }));
}

#[test]
fn thread_scheduler_runs_queued_threads_in_order() {
    let mut s = ThreadScheduler::new();
    assert!(s.push(ThreadPtr(1)));
    assert!(thread_sched::schedule(&mut s, ThreadPtr(2)));
    assert_eq!(s.advance(), Some(ThreadPtr(1)));
    // the current thread keeps running: it saves its frame, waits and is queued again
    let mut cur: Thread<u8, [u64; 2]> = Thread::new(0, ThreadId(7), ProcessPtr(0x100), [0, 0]);
    let next = s.step(ThreadPtr(7), &mut cur, [5, 6]);
    assert_eq!(next, Some(ThreadPtr(2)));
    assert_eq!(*cur.get_stackframe(), [5, 6]);
    assert_eq!(cur.get_status(), ThreadStatus::Waiting);
    // a thread that should sleep is not queued again
    let mut two: Thread<u8, [u64; 2]> = Thread::new(0, ThreadId(2), ProcessPtr(0x100), [0, 0]);
    two.set_schedule_status(ThreadScheduleStatus::Sleep);
    let next = s.step(ThreadPtr(2), &mut two, [8, 9]);
    assert_eq!(next, Some(ThreadPtr(7)));
    assert_eq!(two.get_status(), ThreadStatus::Sleeping);
    // the next thread gets its frame back and runs
    let mut frame = [0u64, 0];
    resume(&mut cur, &mut frame);
    assert_eq!(frame, [5, 6]);
    assert_eq!(cur.get_status(), ThreadStatus::Running);
    cur.set_schedule_status(ThreadScheduleStatus::Sleep);
    assert_eq!(s.step(ThreadPtr(7), &mut cur, frame), None);
    assert_eq!(s.advance(), None);
}

#[test]
fn thread_scheduler_refuses_a_thread_it_cannot_hold() {
    let mut s = ThreadScheduler::new();
    for t in 0..255 {
        assert!(thread_sched::schedule(&mut s, ThreadPtr(t)));
    }
    // a further thread would bring the writer round to the reader
    assert!(!thread_sched::schedule(&mut s, ThreadPtr(999)));
    for t in 0..255 {
        assert_eq!(s.advance(), Some(ThreadPtr(t)));
    }
    assert_eq!(s.advance(), None);
}

#[test]
fn thread_state() {
    let mut t: Thread<u32, [u64; 2]> =
        Thread::new(5, ThreadId::from_index(3), ProcessPtr(0x100), [1, 2]);
    assert_eq!(t.get_id(), ThreadId(3));
    assert_eq!(*t.arch(), 5);
    assert_eq!(t.get_proc(), ProcessPtr(0x100));
    assert_eq!(*t.get_stackframe(), [1, 2]);
    assert_eq!(t.get_status(), ThreadStatus::Waiting);
    assert_eq!(t.get_schedule_status(), ThreadScheduleStatus::Running);
    *t.arch_mut() = 9;
    assert_eq!(*t.arch(), 9);
    t.set_stackframe([3, 4]);
    t.set_proc(ProcessPtr(0x200));
    t.set_status(ThreadStatus::Running);
    t.set_schedule_status(ThreadScheduleStatus::Sleep);
    assert_eq!(*t.get_stackframe(), [3, 4]);
    assert_eq!(t.get_proc(), ProcessPtr(0x200));
    assert_eq!(t.get_status(), ThreadStatus::Running);
    assert_eq!(t.get_schedule_status(), ThreadScheduleStatus::Sleep);
    assert_eq!(t.get_id(), ThreadId(3));
    assert_eq!(ThreadId::gen(), ThreadId(0));
    assert_eq!(ThreadId::resv_id(8), ThreadId(8));
    thread::free(ThreadPtr(1));
}

#[test]
fn lock_then_unlock_restores_interrupts() {
    let mut l = LockPrimitive::new();
    let mut irq = true;
    assert!(!l.is_locked());
    l.manually_lock(&mut irq);
    assert!(l.is_locked());
    assert!(!irq);
    l.manually_unlock(&mut irq);
    assert!(!l.is_locked());
    assert!(irq);

    let mut irq = false;
    l.manually_lock(&mut irq);
    l.manually_unlock(&mut irq);
    assert!(!irq);
    // releasing a free lock changes nothing
    l.manually_unlock(&mut irq);
    assert!(!irq && !l.is_locked());
}

#[test]
fn try_lock_refuses_a_taken_lock() {
    let data = 17u32;
    let mut l = LockPrimitive::new();
    let mut irq = true;
    {
        let g = l.try_lock(&data, &mut irq).unwrap();
        assert_eq!(*g.get(), 17);
    }
    assert!(l.is_locked());
    assert!(!irq);
    let mut irq = true;
    assert!(l.try_lock(&data, &mut irq).is_none());
    assert!(irq);
    // the flag was not saved by try_lock, so releasing keeps interrupts as they are
    let mut irq = false;
    l.manually_unlock(&mut irq);
    assert!(!irq && !l.is_locked());
}

#[test]
fn guards_give_the_data() {
    let l = LockPrimitive::new();
    let v = vec![1, 2, 3];
    assert_eq!(l.lock(&v).get(), &vec![1, 2, 3]);
    assert_eq!(*l.lock_empty().get(), ());
    let locked = Locked::new(5u8);
    assert_eq!(*locked.lock().get(), 5);
    let t = ThreadLocked::new("x");
    assert_eq!(*t.lock().get(), "x");
    let mut w = Locked::new(1u32);
    *w.lock_mut() = 2;
    assert_eq!(*w.lock().get(), 2);
    let mut tw = ThreadLocked::new(3u32);
    *tw.lock_mut() += 1;
    assert_eq!(*tw.lock().get(), 4);
}

#[test]
fn manual_lock_runs_closure_locked() {
    let mut m = ManualLock::new();
    let mut irq = true;
    let r = m.do_locked(&mut irq, || 40 + 2);
    assert_eq!(r, 42);
    assert!(irq);
    m.lock(&mut irq);
    assert!(!irq);
    m.unlock(&mut irq);
    assert!(irq);
}

#[test]
fn stack_walk_visits_found_addresses() {
    let mut frames = [0u64; 512];
    frames[0] = 0x1000;
    frames[1] = 0x2000;
    frames[2] = 0x3000;
    let walk = StackWalk(frames, 2);
    assert_eq!(walk.len(), 2);
    let seen = RefCell::new(Vec::new());
    walk.unwind(|adr, i| seen.borrow_mut().push((adr, i)));
    assert_eq!(seen.into_inner(), vec![(0x1000, 0), (0x2000, 1)]);
}

#[test]
fn mmap_requests_and_answers() {
    let req = MMap {
        ty: MMapTy::Virtual(VirtMap { f_phy_adr: true, phys_adr: 0x1000 }),
        size: MapSize::UserSmall,
    };
    assert_eq!(req.size, MapSize::UserSmall);
    assert_eq!(MUnmap { size: MapSize::KernelLarge }.size, MapSize::KernelLarge);
    assert_eq!(MMapResult::Mapped(3), MMapResult::Mapped(3));
    assert_ne!(MUnmapResult::Unmapped(1), MUnmapResult::Unmapped(2));
    delay(1000);
}

#[test]
fn panic_report_lines() {
    assert_eq!(frame_text(0xffff_ffff_8000_1abc, 3), "[3]: 0xFFFFFFFF80001ABC");
    assert_eq!(frame_text(0x10, 12), "[12]: 0x0000000000000010");
}
