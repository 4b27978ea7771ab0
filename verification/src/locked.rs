//! Spin locks that save the interrupt flag when taken and restore it when
//! released.
//!
//! The lock word and the saved flag are plain fields here, and the CPU's
//! interrupt-enable flag is handed to each operation as `irq`: the caller reads
//! it before the call and writes it back after. What each operation decides
//! (take or refuse the lock, what to save, whether to turn interrupts back on)
//! is stated over `held`, `restores_irq` and that flag.
use vstd::prelude::*;

verus! {

/// The lock word of a spin lock and the interrupt flag saved when it was taken.
pub struct LockPrimitive {
    inner: bool,
    empty_lock: (),
    enable_irq: bool,
}

impl LockPrimitive {
    /// Whether the lock is taken.
    pub closed spec fn held(self) -> bool {
        self.inner
    }

    /// Whether releasing the lock turns interrupts back on.
    pub closed spec fn restores_irq(self) -> bool {
        self.enable_irq
    }

    /// A free lock that restores nothing.
    pub fn new() -> (l: Self)
        ensures
            !l.held(),
            !l.restores_irq(),
    {
        LockPrimitive { inner: false, empty_lock: (), enable_irq: false }
    }

    /// Whether the lock is taken.
    pub fn is_locked(&self) -> (r: bool)
        ensures
            r == self.held(),
    {
        self.inner
    }

    /// Turns interrupts off, takes the lock and saves the flag as it was.
    /// A taken lock would be waited for forever on this CPU, so the lock must
    /// be free.
    pub fn manually_lock(&mut self, irq: &mut bool)
        requires
            !old(self).held(),
        ensures
            final(self).held(),
            final(self).restores_irq() == *old(irq),
            !*final(irq),
    {
        let irq_enable = *irq;
        *irq = false;
        self.inner = true;
        self.enable_irq = irq_enable;
    }

    /// Frees a taken lock and turns interrupts on when they were on before it
    /// was taken; a free lock is left as it is.
    pub fn manually_unlock(&mut self, irq: &mut bool)
        ensures
            !final(self).held(),
            final(self).restores_irq() == (old(self).restores_irq() && !old(self).held()),
            *final(irq) == (*old(irq) || (old(self).held() && old(self).restores_irq())),
    {
        if self.inner {
            self.inner = false;
            if self.enable_irq {
                self.enable_irq = false;
                *irq = true;
            }
        }
    }

    /// A guard over the lock's own empty payload.
    pub fn lock_empty(&self) -> (g: LockGuard<'_, ()>)
        ensures
            g.primitive() == *self,
    {
        self.lock(&self.empty_lock)
    }

    /// A guard over `data` tied to this lock. The lock word is not touched:
    /// the guard is handed out whether or not the lock is taken.
    pub fn lock<'a, T>(&'a self, data: &'a T) -> (g: LockGuard<'a, T>)
        ensures
            g.data() == *data,
            g.primitive() == *self,
    {
        LockGuard { inner: data, lock: self }
    }

    /// Turns interrupts off and takes the lock if it is free, returning a guard
    /// over `data`. A taken lock gives `None`, with the interrupt flag as it was.
    pub fn try_lock<'a, T>(&'a mut self, data: &'a T, irq: &mut bool) -> (g: Option<LockGuard<'a, T>>)
        ensures
            g is Some <==> !old(self).held(),
            g matches Some(guard) ==> guard.data() == *data && guard.primitive() == *final(self),
            final(self).held(),
            final(self).restores_irq() == old(self).restores_irq(),
            *final(irq) == (old(self).held() && *old(irq)),
    {
        let enable_irq = *irq;
        *irq = false;
        if self.inner {
            if enable_irq {
                *irq = true;
            }
            return None;
        }
        self.inner = true;
        let frozen: &'a LockPrimitive = self;
        Some(LockGuard { inner: data, lock: frozen })
    }
}

/// Taking a free lock and releasing it leaves the lock free, with nothing to
/// restore, and the interrupt flag as it was before: `l1`, `irq1` are what
/// `manually_lock` leaves from `l0`, `irq0`, and `l2`, `irq2` what
/// `manually_unlock` leaves from those.
pub proof fn lemma_lock_then_unlock(
    l0: LockPrimitive,
    irq0: bool,
    l1: LockPrimitive,
    irq1: bool,
    l2: LockPrimitive,
    irq2: bool,
)
    requires
        !l0.held(),
        l1.held(),
        l1.restores_irq() == irq0,
        !irq1,
        !l2.held(),
        l2.restores_irq() == (l1.restores_irq() && !l1.held()),
        irq2 == (irq1 || (l1.held() && l1.restores_irq())),
    ensures
        !l2.held(),
        !l2.restores_irq(),
        irq2 == irq0,
{
}

/// Access to data under a lock.
pub struct LockGuard<'a, T> {
    inner: &'a T,
    lock: &'a LockPrimitive,
}

impl<'a, T> LockGuard<'a, T> {
    /// The guarded data.
    pub closed spec fn data(self) -> T {
        *self.inner
    }

    /// The lock the guard belongs to.
    pub closed spec fn primitive(self) -> LockPrimitive {
        *self.lock
    }

    /// The guarded data.
    pub fn get(&self) -> (r: &T)
        ensures
            *r == self.data(),
    {
        self.inner
    }
}

/// A lock with no payload, taken and released by hand.
pub struct ManualLock {
    inner: LockPrimitive,
}

impl ManualLock {
    /// The underlying lock word.
    pub closed spec fn primitive(self) -> LockPrimitive {
        self.inner
    }

    /// A free lock.
    pub fn new() -> (l: Self)
        ensures
            !l.primitive().held(),
            !l.primitive().restores_irq(),
    {
        ManualLock { inner: LockPrimitive::new() }
    }

    /// Takes the lock (see `LockPrimitive::manually_lock`).
    pub fn lock(&mut self, irq: &mut bool)
        requires
            !old(self).primitive().held(),
        ensures
            final(self).primitive().held(),
            final(self).primitive().restores_irq() == *old(irq),
            !*final(irq),
    {
        self.inner.manually_lock(irq);
    }

    /// Releases the lock (see `LockPrimitive::manually_unlock`).
    pub fn unlock(&mut self, irq: &mut bool)
        ensures
            !final(self).primitive().held(),
            final(self).primitive().restores_irq() == (old(self).primitive().restores_irq()
                && !old(self).primitive().held()),
            *final(irq) == (*old(irq) || (old(self).primitive().held()
                && old(self).primitive().restores_irq())),
    {
        self.inner.manually_unlock(irq);
    }

    /// Runs `f` with the lock taken, then releases it: the lock ends free and
    /// the interrupt flag as it was.
    pub fn do_locked<R, F: Fn() -> R>(&mut self, irq: &mut bool, f: F) -> (r: R)
        requires
            !old(self).primitive().held(),
            f.requires(()),
        ensures
            f.ensures((), r),
            !final(self).primitive().held(),
            !final(self).primitive().restores_irq(),
            *final(irq) == *old(irq),
    {
        self.lock(irq);
        let r = f();
        self.unlock(irq);
        r
    }
}

/// Data behind a lock.
pub struct Locked<T> {
    lock: LockPrimitive,
    inner: T,
}

impl<T> Locked<T> {
    /// The data behind the lock.
    pub closed spec fn value(self) -> T {
        self.inner
    }

    /// The lock word.
    pub closed spec fn primitive(self) -> LockPrimitive {
        self.lock
    }

    /// `inner` behind a free lock.
    pub fn new(inner: T) -> (l: Self)
        ensures
            l.value() == inner,
            !l.primitive().held(),
            !l.primitive().restores_irq(),
    {
        Locked { inner, lock: LockPrimitive::new() }
    }

    /// A guard over the data (see `LockPrimitive::lock`).
    pub fn lock(&self) -> (g: LockGuard<'_, T>)
        ensures
            g.data() == self.value(),
            g.primitive() == self.primitive(),
    {
        self.lock.lock(&self.inner)
    }

    /// The data, for writing: what is written through the reference is the
    /// data afterwards. The lock word is not touched.
    pub fn lock_mut(&mut self) -> (r: &mut T)
        ensures
            *r == old(self).value(),
            final(self).value() == *final(r),
            final(self).primitive() == old(self).primitive(),
    {
        &mut self.inner
    }
}

/// Data behind a lock owned by one thread; it does not wait on itself.
pub struct ThreadLocked<T> {
    lock: LockPrimitive,
    inner: T,
}

impl<T> ThreadLocked<T> {
    /// The data behind the lock.
    pub closed spec fn value(self) -> T {
        self.inner
    }

    /// The lock word.
    pub closed spec fn primitive(self) -> LockPrimitive {
        self.lock
    }

    /// `inner` behind a free lock.
    pub fn new(inner: T) -> (l: Self)
        ensures
            l.value() == inner,
            !l.primitive().held(),
            !l.primitive().restores_irq(),
    {
        ThreadLocked { inner, lock: LockPrimitive::new() }
    }

    /// A guard over the data (see `LockPrimitive::lock`).
    pub fn lock(&self) -> (g: LockGuard<'_, T>)
        ensures
            g.data() == self.value(),
            g.primitive() == self.primitive(),
    {
        self.lock.lock(&self.inner)
    }

    /// The data, for writing: what is written through the reference is the
    /// data afterwards. The lock word is not touched.
    pub fn lock_mut(&mut self) -> (r: &mut T)
        ensures
            *r == old(self).value(),
            final(self).value() == *final(r),
            final(self).primitive() == old(self).primitive(),
    {
        &mut self.inner
    }
}

} // verus!
