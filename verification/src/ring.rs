//! A fixed-capacity ring buffer with a reader and a writer index.
use vstd::prelude::*;

verus! {

/// How many values lie between `reader` and `writer` in a ring of `size` slots.
pub open spec fn ring_count(reader: int, writer: int, size: int) -> int {
    if writer >= reader {
        writer - reader
    } else {
        writer + size - reader
    }
}

/// Reducing a value below twice the ring size.
proof fn lemma_wrap(x: int, s: int)
    requires
        0 <= x < 2 * s,
        s > 0,
    ensures
        x % s == if x < s { x } else { x - s },
{
    if x < s {
        vstd::arithmetic::div_mod::lemma_small_mod(x as nat, s as nat);
    } else {
        vstd::arithmetic::div_mod::lemma_small_mod((x - s) as nat, s as nat);
        vstd::arithmetic::div_mod::lemma_mod_sub_multiples_vanish(x, s);
    }
}

/// A ring of `SIZE` slots; values are written at `writer` and read at `reader`.
pub struct RingBuf<T, const SIZE: usize> {
    buf: Vec<Option<T>>,
    reader: usize,
    writer: usize,
}

impl<T, const SIZE: usize> RingBuf<T, SIZE> {
    pub closed spec fn spec_reader(&self) -> usize {
        self.reader
    }

    pub closed spec fn spec_writer(&self) -> usize {
        self.writer
    }

    /// The slots of the ring.
    pub closed spec fn slots(&self) -> Seq<Option<T>> {
        self.buf@
    }

    /// The number of values between the reader and the writer.
    pub open spec fn count(&self) -> int {
        ring_count(self.spec_reader() as int, self.spec_writer() as int, SIZE as int)
    }

    /// The values that reads will give, oldest first.
    pub open spec fn contents(&self) -> Seq<T> {
        Seq::new(
            self.count() as nat,
            |i: int| self.slots()[(self.spec_reader() + i) % (SIZE as int)]->Some_0,
        )
    }

    /// The ring's well-formedness: both indices lie in the ring, and every
    /// slot between them holds a value.
    pub open spec fn wf(&self) -> bool {
        &&& self.slots().len() == SIZE
        &&& SIZE == 0 ==> self.spec_reader() == 0 && self.spec_writer() == 0
        &&& SIZE > 0 ==> self.spec_reader() < SIZE && self.spec_writer() < SIZE
        &&& forall|i: int|
            0 <= i < self.count() ==> (#[trigger] self.slots()[(self.spec_reader() + i) % (
            SIZE as int)]) is Some
    }

    /// The ring is full: it holds `SIZE - 1` values, so that the slot after
    /// the writer is the reader's.
    pub open spec fn full(&self) -> bool {
        self.count() == SIZE - 1
    }

    /// An empty ring.
    pub fn new() -> (r: Self)
        ensures
            r.wf(),
            r.spec_reader() == 0,
            r.spec_writer() == 0,
            r.contents() == Seq::<T>::empty(),
    {
        let mut buf: Vec<Option<T>> = Vec::new();
        let mut i: usize = 0;
        while i < SIZE
            invariant
                i <= SIZE,
                buf@.len() == i,
            decreases SIZE - i,
        {
            buf.push(None);
            i = i + 1;
        }
        let r = RingBuf { buf, reader: 0, writer: 0 };
        proof {
            assert(r.contents() =~= Seq::<T>::empty());
        }
        r
    }

    /// Whether the reader has caught up with the writer.
    pub fn is_empty(&self) -> (r: bool)
        ensures
            r == (self.spec_reader() == self.spec_writer()),
    {
        self.reader == self.writer
    }

    /// Whether the ring refuses further writes.
    pub fn is_full(&self) -> (r: bool)
        requires
            self.wf(),
            SIZE > 0,
        ensures
            r == self.full(),
    {
        proof {
            lemma_wrap(self.spec_writer() + 1, SIZE as int);
        }
        self.next_writer() == self.reader
    }

    /// Writes `val`, or hands it back when the ring is full (holds `SIZE - 1`
    /// values).
    pub fn push(&mut self, val: T) -> (r: Result<(), T>)
        requires
            old(self).wf(),
            SIZE > 0,
        ensures
            final(self).wf(),
            old(self).full() ==> r == Err::<(), T>(val) && *final(self) == *old(self),
            !old(self).full() ==> {
                &&& r is Ok
                &&& final(self).spec_reader() == old(self).spec_reader()
                &&& final(self).spec_writer() == (old(self).spec_writer() + 1) % (SIZE as int)
                &&& final(self).slots() == old(self).slots().update(
                    old(self).spec_writer() as int,
                    Some(val),
                )
                &&& final(self).contents() == old(self).contents().push(val)
            },
    {
        match self.step_writer(val) {
            Some(write) => Err(write),
            None => Ok(()),
        }
    }

    /// Reads the oldest value, or fails when the ring is empty.
    pub fn pop(&mut self) -> (r: Result<T, ()>)
        requires
            old(self).wf(),
        ensures
            final(self).wf(),
            old(self).spec_reader() == old(self).spec_writer() ==> r == Err::<T, ()>(())
                && *final(self) == *old(self),
            old(self).spec_reader() != old(self).spec_writer() ==> {
                &&& r == Ok::<T, ()>(old(self).contents()[0])
                &&& final(self).spec_writer() == old(self).spec_writer()
                &&& final(self).spec_reader() == (old(self).spec_reader() + 1) % (SIZE as int)
                &&& final(self).contents() == old(self).contents().drop_first()
            },
    {
        match self.step_reader() {
            Some(read) => Ok(read),
            None => Err(()),
        }
    }

    /// Writes `write` at the writer unless the ring is full; hands it back if
    /// it was not written.
    fn step_writer(&mut self, write: T) -> (r: Option<T>)
        requires
            old(self).wf(),
            SIZE > 0,
        ensures
            final(self).wf(),
            old(self).full() ==> r == Some(write) && *final(self) == *old(self),
            !old(self).full() ==> {
                &&& r is None
                &&& final(self).spec_reader() == old(self).spec_reader()
                &&& final(self).spec_writer() == (old(self).spec_writer() + 1) % (SIZE as int)
                &&& final(self).slots() == old(self).slots().update(
                    old(self).spec_writer() as int,
                    Some(write),
                )
                &&& final(self).contents() == old(self).contents().push(write)
            },
    {
        if self.is_full() {
            Some(write)
        } else {
            let ghost old_self = *self;
            let w = self.writer;
            self.buf.set(w, Some(write));
            self.writer = self.next_writer();
            proof {
                let r = old_self.spec_reader() as int;
                let s = SIZE as int;
                let c = old_self.count();
                assert(0 <= c < s);
                lemma_wrap(w + 1, s);
                lemma_wrap(r + c, s);
                assert(w as int == (r + c) % s);
                assert forall|i: int| 0 <= i < s implies #[trigger] ((r + i) % s) == if r + i < s {
                    r + i
                } else {
                    r + i - s
                } by {
                    lemma_wrap(r + i, s);
                }
                assert(c + 1 < s);
                assert(self.count() == c + 1);
                assert forall|i: int| 0 <= i < self.count() implies (#[trigger] self.slots()[(
                self.spec_reader() + i) % s]) is Some by {
                    if i < c {
                        assert((r + i) % s != w as int);
                    } else {
                        assert((r + i) % s == w as int);
                    }
                }
                assert forall|i: int| 0 <= i < c implies #[trigger] self.contents()[i]
                    == old_self.contents()[i] by {
                    assert((r + i) % s != w as int);
                }
                assert(self.contents()[c] == write) by {
                    assert((r + c) % s == w as int);
                }
                assert(self.contents() =~= old_self.contents().push(write));
            }
            None
        }
    }

    /// Takes the value at the reader unless the ring is empty.
    fn step_reader(&mut self) -> (r: Option<T>)
        requires
            old(self).wf(),
        ensures
            final(self).wf(),
            old(self).spec_reader() == old(self).spec_writer() ==> r is None && *final(self) == *old(
                self,
            ),
            old(self).spec_reader() != old(self).spec_writer() ==> {
                &&& r == Some(old(self).contents()[0])
                &&& final(self).spec_writer() == old(self).spec_writer()
                &&& final(self).spec_reader() == (old(self).spec_reader() + 1) % (SIZE as int)
                &&& final(self).contents() == old(self).contents().drop_first()
            },
    {
        if self.is_empty() {
            None
        } else {
            let ghost old_self = *self;
            let index = self.reader;
            self.reader = self.next_reader();
            let mut slot: Option<T> = None;
            self.buf.set_and_swap(index, &mut slot);
            proof {
                let r = old_self.spec_reader() as int;
                let s = SIZE as int;
                let c = old_self.count();
                assert(c > 0);
                lemma_wrap(r + 1, s);
                assert forall|i: int| 0 <= i < s implies #[trigger] ((r + i) % s) == if r + i < s {
                    r + i
                } else {
                    r + i - s
                } by {
                    lemma_wrap(r + i, s);
                }
                assert forall|i: int| 0 <= i < s implies #[trigger] ((self.spec_reader() + i) % s) == if (
                self.spec_reader() + i) < s {
                    self.spec_reader() + i
                } else {
                    self.spec_reader() + i - s
                } by {
                    lemma_wrap(self.spec_reader() + i, s);
                }
                assert(old_self.slots()[(r + 0) % s] is Some);
                assert(self.count() == c - 1);
                assert forall|i: int| 0 <= i < self.count() implies (#[trigger] self.slots()[(
                self.spec_reader() + i) % s]) is Some by {
                    assert((self.spec_reader() + i) % s == (r + (i + 1)) % s);
                    assert((r + (i + 1)) % s != index as int);
                    assert(old_self.slots()[(r + (i + 1)) % s] is Some);
                }
                assert forall|i: int| 0 <= i < self.count() implies #[trigger] self.contents()[i]
                    == old_self.contents().drop_first()[i] by {
                    assert((self.spec_reader() + i) % s == (r + (i + 1)) % s);
                    assert((r + (i + 1)) % s != index as int);
                }
                assert(self.contents() =~= old_self.contents().drop_first());
            }
            match slot {
                Some(v) => Some(v),
                None => None,
            }
        }
    }

    /// The slot after the writer.
    fn next_writer(&self) -> (r: usize)
        requires
            self.wf(),
            SIZE > 0,
        ensures
            r == (self.spec_writer() + 1) % (SIZE as int),
    {
        (self.writer + 1) % SIZE
    }

    /// The slot after the reader.
    fn next_reader(&self) -> (r: usize)
        requires
            self.wf(),
            SIZE > 0,
        ensures
            r == (self.spec_reader() + 1) % (SIZE as int),
    {
        (self.reader + 1) % SIZE
    }
}

} // verus!
