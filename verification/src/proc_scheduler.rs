//! The round-robin process scheduler: a fixed table of scheduled processes
//! and a cursor that moves through it.
use vstd::prelude::*;

use crate::process::{ProcessId, ProcessTable};
use crate::thread::ProcessPtr;

verus! {

/// The capacity of the scheduler.
pub const MAX_SCHEDULED_PROCS: usize = 256;

/// The scheduled processes `procs[0 .. count]`, the process running, and the
/// cursor `cur`.
pub struct Scheduler {
    procs: [ProcessId; 256],
    running: Option<ProcessId>,
    count: usize,
    cur: usize,
}

/// `a` if it is positive, else one.
pub open spec fn at_least_one(a: int) -> int {
    if a > 0 {
        a
    } else {
        1
    }
}

/// A scheduled process and where it is.
#[derive(Clone, Copy, Debug, PartialEq, Eq, Structural)]
pub struct ProcRef {
    pub id: ProcessId,
    pub ptr: ProcessPtr,
}

/// What a scheduling step decided: whose register frame to save (the process
/// that was running), and which process to run next.
#[derive(Clone, Copy, Debug, PartialEq, Eq, Structural)]
pub struct StepAction {
    pub save: Option<ProcRef>,
    pub run: Option<ProcRef>,
}

impl Scheduler {
    pub closed spec fn procs(&self) -> Seq<ProcessId> {
        self.procs@
    }

    pub closed spec fn spec_running(&self) -> Option<ProcessId> {
        self.running
    }

    pub closed spec fn spec_count(&self) -> usize {
        self.count
    }

    pub closed spec fn spec_cur(&self) -> usize {
        self.cur
    }

    pub open spec fn wf(&self) -> bool {
        &&& self.procs().len() == MAX_SCHEDULED_PROCS
        &&& self.spec_count() <= MAX_SCHEDULED_PROCS
        &&& self.spec_cur() < at_least_one(self.spec_count() as int)
    }

    /// The index `steps` places after the cursor, round the scheduled processes.
    pub open spec fn index_spec(&self, steps: int) -> int {
        (self.spec_cur() + steps) % at_least_one(self.spec_count() as int)
    }

    /// The process `steps` places after the cursor, if any is scheduled.
    pub open spec fn get_spec(&self, steps: int) -> Option<ProcessId> {
        if self.spec_count() != 0 {
            Some(self.procs()[self.index_spec(steps)])
        } else {
            None
        }
    }

    /// An empty scheduler.
    pub fn new() -> (r: Self)
        ensures
            r.wf(),
            r.spec_count() == 0,
            r.spec_cur() == 0,
            r.spec_running() is None,
    {
        Scheduler { procs: [ProcessId(0); 256], running: None, count: 0, cur: 0 }
    }

    /// Adds process `id` after the scheduled ones.
    pub fn push(&mut self, id: ProcessId)
        requires
            old(self).wf(),
            old(self).spec_count() < MAX_SCHEDULED_PROCS,
        ensures
            final(self).wf(),
            final(self).spec_count() == old(self).spec_count() + 1,
            final(self).procs() == old(self).procs().update(old(self).spec_count() as int, id),
            final(self).spec_cur() == old(self).spec_cur(),
            final(self).spec_running() == old(self).spec_running(),
    {
        let c = self.count;
        self.procs[c] = id;
        self.count = c + 1;
    }

    /// The index `steps` places after the cursor.
    pub fn index_in_steps(&self, steps: usize) -> (r: usize)
        requires
            self.wf(),
            self.spec_cur() + steps <= usize::MAX,
        ensures
            r == self.index_spec(steps as int),
            r < at_least_one(self.spec_count() as int),
    {
        let n: usize = if self.count > 1 { self.count } else { 1 };
        (self.cur + steps) % n
    }

    /// The process `steps` places after the cursor, if any is scheduled.
    pub fn get(&self, steps: usize) -> (r: Option<ProcessId>)
        requires
            self.wf(),
            self.spec_cur() + steps <= usize::MAX,
        ensures
            r == self.get_spec(steps as int),
    {
        let index = self.index_in_steps(steps);
        if self.count != 0 {
            Some(self.procs[index])
        } else {
            None
        }
    }

    /// The process after the cursor, if any is scheduled.
    pub fn next(&self) -> (r: Option<ProcessId>)
        requires
            self.wf(),
        ensures
            r == self.get_spec(1),
    {
        self.get(1)
    }

    /// The process with identifier `id`, looked up in `table`.
    pub fn get_proc(&self, table: &ProcessTable, id: ProcessId) -> (r: Option<ProcessPtr>)
        requires
            table.wf(),
            (id.0 as int) < crate::process::MAX_PROCESSES,
        ensures
            table.slots()[id.0 as int] != 0 ==> r == Some(ProcessPtr(table.slots()[id.0 as int])),
            table.slots()[id.0 as int] == 0 ==> r is None,
    {
        table.get(id)
    }

    /// Moves the cursor one place on, round the scheduled processes.
    pub fn advance(&mut self)
        requires
            old(self).wf(),
        ensures
            final(self).wf(),
            final(self).spec_cur() == old(self).index_spec(1),
            final(self).spec_count() == old(self).spec_count(),
            final(self).procs() == old(self).procs(),
            final(self).spec_running() == old(self).spec_running(),
    {
        let n: usize = if self.count > 1 { self.count } else { 1 };
        self.cur = self.cur + 1;
        self.cur = self.cur % n;
    }

    /// One scheduling step: the running process's frame is to be saved, the
    /// process after the cursor runs if it exists in `table`, and the cursor
    /// moves on. The running process must exist in `table`.
    pub fn step(&mut self, table: &ProcessTable) -> (r: StepAction)
        requires
            old(self).wf(),
            table.wf(),
            forall|i: int| 0 <= i < 256 ==> ((#[trigger] old(self).procs()[i]).0 as int) < crate::process::MAX_PROCESSES,
            old(self).spec_running() matches Some(id) ==> (id.0 as int) < crate::process::MAX_PROCESSES
                && table.slots()[id.0 as int] != 0,
        ensures
            final(self).wf(),
            final(self).spec_cur() == old(self).index_spec(1),
            final(self).spec_count() == old(self).spec_count(),
            final(self).procs() == old(self).procs(),
            r.save == (match old(self).spec_running() {
                Some(id) => Some(ProcRef { id, ptr: ProcessPtr(table.slots()[id.0 as int]) }),
                None => None,
            }),
            r.run == (match old(self).get_spec(1) {
                Some(id) => if table.slots()[id.0 as int] != 0 {
                    Some(ProcRef { id, ptr: ProcessPtr(table.slots()[id.0 as int]) })
                } else {
                    None
                },
                None => None,
            }),
            final(self).spec_running() == (match r.run {
                Some(p) => Some(p.id),
                None => old(self).spec_running(),
            }),
    {
        let save = match self.running {
            Some(running) => {
                match self.get_proc(table, running) {
                    Some(p) => Some(ProcRef { id: running, ptr: p }),
                    None => {
                        proof {
                            assert(false);
                        }
                        None
                    },
                }
            },
            None => None,
        };
        let mut run = None;
        match self.next() {
            Some(id) => {
                proof {
                    assert(0 <= self.index_spec(1) < 256);
                }
                match self.get_proc(table, id) {
                    Some(p) => {
                        self.running = Some(id);
                        run = Some(ProcRef { id, ptr: p });
                    },
                    None => {},
                }
            },
            None => {},
        }
        self.advance();
        StepAction { save, run }
    }
}

/// Adds process `process_id` to `scheduler`.
pub fn schedule(scheduler: &mut Scheduler, process_id: ProcessId)
    requires
        old(scheduler).wf(),
        old(scheduler).spec_count() < MAX_SCHEDULED_PROCS,
    ensures
        final(scheduler).wf(),
        final(scheduler).spec_count() == old(scheduler).spec_count() + 1,
        final(scheduler).procs() == old(scheduler).procs().update(
            old(scheduler).spec_count() as int,
            process_id,
        ),
        final(scheduler).spec_cur() == old(scheduler).spec_cur(),
{
    scheduler.push(process_id)
}

/// After the cursor moves on, the process at the cursor is the one that was
/// next: `get(0)` after `advance` gives what `next` gave before.
pub proof fn lemma_advance_then_get(before: Scheduler, after: Scheduler)
    requires
        before.wf(),
        after.spec_cur() == before.index_spec(1),
        after.spec_count() == before.spec_count(),
        after.procs() == before.procs(),
    ensures
        after.get_spec(0) == before.get_spec(1),
{
    let n = at_least_one(before.spec_count() as int);
    vstd::arithmetic::div_mod::lemma_mod_pos_bound(before.spec_cur() + 1, n);
    vstd::arithmetic::div_mod::lemma_small_mod(after.spec_cur() as nat, n as nat);
}

/// Whenever a process is scheduled, the one `steps` places after the cursor
/// is the process at `(cur + steps) % count`; with a single scheduled process,
/// the next one is that process.
pub proof fn lemma_get_scheduled(s: Scheduler, steps: int)
    requires
        s.wf(),
        steps >= 0,
    ensures
        s.spec_count() > 0 ==> s.get_spec(steps) == Some(
            s.procs()[(s.spec_cur() + steps) % (s.spec_count() as int)],
        ),
        s.spec_count() == 0 ==> s.get_spec(steps) is None,
        s.spec_count() == 1 ==> s.get_spec(1) == Some(s.procs()[0]),
{
    if s.spec_count() == 1 {
        assert(s.spec_cur() == 0);
        assert((0int + 1) % 1 == 0);
    }
}

} // verus!
