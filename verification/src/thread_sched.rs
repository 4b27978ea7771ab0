//! The thread scheduler: a run queue of threads and one scheduling step.
use vstd::prelude::*;

use crate::ring::RingBuf;
use crate::thread::{Thread, ThreadPtr, ThreadScheduleStatus, ThreadStatus};

verus! {

/// The capacity of the run queue.
pub const MAX_SCHEDULED_THREADS: usize = 256;

/// The threads waiting to run, in a ring.
pub struct Scheduler {
    run_queue: RingBuf<ThreadPtr, 256>,
}

impl Scheduler {
    pub closed spec fn queue(&self) -> RingBuf<ThreadPtr, 256> {
        self.run_queue
    }

    pub open spec fn wf(&self) -> bool {
        self.queue().wf()
    }

    /// An empty scheduler.
    pub fn new() -> (r: Self)
        ensures
            r.wf(),
            r.queue().contents() == Seq::<ThreadPtr>::empty(),
    {
        Scheduler { run_queue: RingBuf::new() }
    }

    /// Whether the queue takes one more thread: it is not full.
    pub open spec fn can_queue(&self) -> bool {
        !self.queue().full()
    }

    /// Queues `thread`; `true` when it was queued, `false` when the queue is
    /// full.
    pub fn push(&mut self, thread: ThreadPtr) -> (r: bool)
        requires
            old(self).wf(),
        ensures
            final(self).wf(),
            r == old(self).can_queue(),
            r ==> final(self).queue().contents() == old(self).queue().contents().push(thread),
            !r ==> final(self).queue() == old(self).queue(),
    {
        self.run_queue.push(thread).is_ok()
    }

    /// Takes the next thread to run, if any.
    pub fn advance(&mut self) -> (r: Option<ThreadPtr>)
        requires
            old(self).wf(),
        ensures
            final(self).wf(),
            old(self).queue().contents().len() == 0 ==> r is None && final(self).queue() == old(
                self,
            ).queue(),
            old(self).queue().contents().len() > 0 ==> r == Some(old(self).queue().contents()[0])
                && final(self).queue().contents() == old(self).queue().contents().drop_first(),
    {
        proof {
            let q = self.queue();
            if q.spec_reader() != q.spec_writer() {
                assert(q.count() > 0);
            }
        }
        self.run_queue.pop().ok()
    }

    /// One scheduling step for the current thread `cur`, at `cur_ptr`, whose
    /// registers were `frame`: the frame is saved in it; a thread that should
    /// sleep is put to sleep, one that should keep running waits and is queued
    /// again. Then the next queued thread, if any, is taken to run.
    pub fn step<A, F: Copy>(&mut self, cur_ptr: ThreadPtr, cur: &mut Thread<A, F>, frame: F) -> (r:
        Option<ThreadPtr>)
        requires
            old(self).wf(),
        ensures
            final(self).wf(),
            final(cur).spec_stackframe() == frame,
            final(cur).spec_status() == (if old(cur).spec_schedule_status()
                == ThreadScheduleStatus::Sleep {
                ThreadStatus::Sleeping
            } else {
                ThreadStatus::Waiting
            }),
            final(cur).spec_arch() == old(cur).spec_arch(),
            final(cur).spec_id() == old(cur).spec_id(),
            final(cur).spec_proc() == old(cur).spec_proc(),
            final(cur).spec_stack() == old(cur).spec_stack(),
            final(cur).spec_schedule_status() == old(cur).spec_schedule_status(),
            ({
                let q = if old(cur).spec_schedule_status() == ThreadScheduleStatus::Running
                    && old(self).can_queue() {
                    old(self).queue().contents().push(cur_ptr)
                } else {
                    old(self).queue().contents()
                };
                &&& q.len() == 0 ==> r is None && final(self).queue().contents() == q
                &&& q.len() > 0 ==> r == Some(q[0]) && final(self).queue().contents() == q.drop_first()
            }),
    {
        cur.set_stackframe(frame);
        let status = match cur.get_schedule_status() {
            ThreadScheduleStatus::Sleep => ThreadStatus::Sleeping,
            ThreadScheduleStatus::Running => {
                self.push(cur_ptr);
                ThreadStatus::Waiting
            },
        };
        cur.set_status(status);
        self.advance()
    }
}

/// Makes `next` the running thread: its saved registers go to `frame`, and
/// its status becomes `Running`.
pub fn resume<A, F: Copy>(next: &mut Thread<A, F>, frame: &mut F)
    ensures
        *final(frame) == old(next).spec_stackframe(),
        final(next).spec_status() == ThreadStatus::Running,
        final(next).spec_stackframe() == old(next).spec_stackframe(),
        final(next).spec_arch() == old(next).spec_arch(),
        final(next).spec_id() == old(next).spec_id(),
        final(next).spec_proc() == old(next).spec_proc(),
        final(next).spec_stack() == old(next).spec_stack(),
        final(next).spec_schedule_status() == old(next).spec_schedule_status(),
{
    *frame = *next.get_stackframe();
    next.set_status(ThreadStatus::Running);
}

/// Queues `thread` on `scheduler`; `true` when it was queued.
pub fn schedule(scheduler: &mut Scheduler, thread: ThreadPtr) -> (r: bool)
    requires
        old(scheduler).wf(),
    ensures
        final(scheduler).wf(),
        r == old(scheduler).can_queue(),
        r ==> final(scheduler).queue().contents() == old(scheduler).queue().contents().push(thread),
        !r ==> final(scheduler).queue() == old(scheduler).queue(),
{
    scheduler.push(thread)
}

} // verus!
