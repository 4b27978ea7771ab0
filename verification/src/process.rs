//! Processes: their identifiers, their threads, and the table that finds a
//! process by its identifier.
use vstd::prelude::*;
use crate::text::{decimal, push_decimal};

use crate::thread::{ProcessPtr, ThreadPtr};
use crate::vmm::VMM;
use crate::heap::Error as HeapError;

verus! {

/// The number of process slots: one per `u16` identifier below `u16::MAX`.
pub const MAX_PROCESSES: usize = 65535;

/// Errors of process management.
#[derive(Clone, Copy, Debug, PartialEq, Eq, Structural)]
pub enum Error {
    HeapAllocationError(HeapError),
}

impl Error {
    /// The text shown for the error.
    pub open spec fn text(&self) -> Seq<char> {
        match self {
            Error::HeapAllocationError(e) => "heap allocation error: "@ + e.text(),
        }
    }

    /// The text shown for the error.
    pub fn message(&self) -> (r: String)
        ensures
            r@ == self.text(),
    {
        match self {
            Error::HeapAllocationError(e) => {
                let mut out = String::from_str("heap allocation error: ");
                let inner = e.message();
                out.append(inner.as_str());
                out
            },
        }
    }
}

/// A process identifier.
#[derive(Clone, Copy, Debug, PartialEq, Eq, Structural)]
pub struct ProcessId(pub u16);

impl ProcessId {
    /// The identifier as text: its number in decimal.
    pub open spec fn text(self) -> Seq<char> {
        decimal(self.0 as nat)
    }

    /// The identifier as text: its number in decimal.
    pub fn to_text(self) -> (r: String)
        ensures
            r@ == self.text(),
    {
        let mut out = String::new();
        push_decimal(&mut out, self.0 as u64);
        out
    }
}

/// A process: its address space, its identifier and its threads.
pub struct Process {
    pub vmm: VMM,
    pub id: ProcessId,
    pub thread_id_counter: u64,
    pub threads: Vec<ThreadPtr>,
}

impl Process {
    /// A process with no threads yet.
    pub fn new(vmm: VMM, id: ProcessId) -> (r: Process)
        ensures
            r.id == id,
            r.threads@ == Seq::<ThreadPtr>::empty(),
    {
        Process { vmm, id, thread_id_counter: 0, threads: Vec::new() }
    }

    /// Adds `thread` to the process's threads.
    pub fn add_thread(&mut self, thread: ThreadPtr) -> (r: Result<(), Error>)
        ensures
            r is Ok,
            final(self).threads@ == old(self).threads@.push(thread),
            final(self).id == old(self).id,
    {
        self.threads.push(thread);
        Ok(())
    }

    /// Removes a thread from the process; threads are not removed yet.
    pub fn remove_thread(&mut self, thread: ThreadPtr) -> (r: Result<(), Error>)
        ensures
            r is Ok,
            final(self).threads@ == old(self).threads@,
            final(self).id == old(self).id,
    {
        Ok(())
    }
}

/// The processes by identifier, and the counter that hands out identifiers.
pub struct ProcessTable {
    slots: Vec<u64>,
    counter: u16,
}

impl ProcessTable {
    /// The process address in each slot; `0` where there is none.
    pub closed spec fn slots(&self) -> Seq<u64> {
        self.slots@
    }

    /// The next identifier to hand out.
    pub closed spec fn counter(&self) -> u16 {
        self.counter
    }

    pub open spec fn wf(&self) -> bool {
        self.slots().len() == MAX_PROCESSES
    }

    /// A table with no processes.
    pub fn new() -> (r: Self)
        ensures
            r.wf(),
            r.counter() == 0,
            forall|i: int| 0 <= i < MAX_PROCESSES ==> r.slots()[i] == 0,
    {
        let mut slots: Vec<u64> = Vec::new();
        let mut i: usize = 0;
        while i < MAX_PROCESSES
            invariant
                i <= MAX_PROCESSES,
                slots@.len() == i,
                forall|j: int| 0 <= j < i ==> slots@[j] == 0,
            decreases MAX_PROCESSES - i,
        {
            slots.push(0);
            i = i + 1;
        }
        ProcessTable { slots, counter: 0 }
    }

    /// The process with identifier `id`, if there is one.
    pub fn get(&self, id: ProcessId) -> (r: Option<ProcessPtr>)
        requires
            self.wf(),
            (id.0 as int) < MAX_PROCESSES,
        ensures
            self.slots()[id.0 as int] != 0 ==> r == Some(ProcessPtr(self.slots()[id.0 as int])),
            self.slots()[id.0 as int] == 0 ==> r is None,
    {
        let ptr = self.slots[id.0 as usize];
        if ptr != 0 {
            Some(ProcessPtr(ptr))
        } else {
            None
        }
    }

    /// Records the process at `process` under the next identifier, and hands
    /// out that identifier.
    pub fn new_proc(&mut self, process: ProcessPtr) -> (r: Result<(ProcessPtr, ProcessId), Error>)
        requires
            old(self).wf(),
            (old(self).counter() as int) < MAX_PROCESSES,
        ensures
            final(self).wf(),
            r == Ok::<(ProcessPtr, ProcessId), Error>((process, ProcessId(old(self).counter()))),
            final(self).counter() == old(self).counter() + 1,
            final(self).slots() == old(self).slots().update(old(self).counter() as int, process.0),
    {
        let index = self.counter;
        self.counter = self.counter + 1;
        self.slots.set(index as usize, process.0);
        Ok((process, ProcessId(index)))
    }
}

} // verus!
