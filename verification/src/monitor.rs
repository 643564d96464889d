//! The guarded value: a mutex that owns what it protects and hands it out
//! only together with the lock, and a condition variable that takes the
//! guard in while its thread sleeps.
//!
//! Exclusive access is modelled by moving the value: it rests in the mutex
//! while the lock is free and in the one guard while the lock is held.

use vstd::prelude::*;
use crate::futex::{Action, Lock, NotifyAll, NotifyOne, Unlock, Wait, SPINS};

verus! {

/// A mutex together with the value it guards.
pub struct Mutex<T> {
    lock: crate::futex::Mutex,
    valu: Option<T>,
}

/// The value of a mutex, in the hands of the thread that holds the lock.
pub struct Guard<T> {
    valu: T,
}

impl<T> View for Guard<T> {
    type V = T;

    closed spec fn view(&self) -> T {
        self.valu
    }
}

impl<T> Guard<T> {
    /// Read access to the guarded value.
    pub fn deref(&self) -> (r: &T)
        ensures
            *r == self@,
    {
        &self.valu
    }

    /// Write access to the guarded value.
    pub fn deref_mut(&mut self) -> (r: &mut T)
        ensures
            *r == old(self)@,
            final(self)@ == *final(r),
    {
        &mut self.valu
    }

    /// Gives the lock back: the first step of `unlock` with the budget
    /// `SPINS`, in which the value returns to the mutex and the word goes
    /// back to unlocked. What is returned is where `unlock` stands then; the
    /// thread takes the steps that remain with `Mutex::unlock`.
    pub fn release(self, home: &mut Mutex<T>) -> (next: Unlock)
        requires
            old(home).wf(),
            old(home).held(),
        ensures
            final(home).wf(),
            final(home).word() == 0,
            final(home).value() == Some(self@),
            next == crate::futex::Mutex::unlock_step(old(home).word(), Unlock::begun(SPINS)).1,
    {
        let next: Unlock = home.lock.unlock(Unlock::start(SPINS));
        home.valu = Some(self.valu);
        next
    }
}

impl<T> Mutex<T> {
    /// The word of the lock.
    pub closed spec fn word(&self) -> u32 {
        self.lock.word
    }

    /// The guarded value while it rests in the mutex.
    pub closed spec fn value(&self) -> Option<T> {
        self.valu
    }

    /// Whether the lock is held.
    pub open spec fn held(&self) -> bool {
        self.word() != 0
    }

    /// The value rests in the mutex exactly while the lock is free.
    pub open spec fn wf(&self) -> bool {
        self.value() is Some <==> !self.held()
    }

    /// A free mutex that guards `x`.
    pub fn new(x: T) -> (m: Mutex<T>)
        ensures
            m.wf(),
            m.word() == 0,
            m.value() == Some(x),
    {
        Mutex { lock: crate::futex::Mutex::new(), valu: Some(x) }
    }

    /// The word of the lock as it stands: what the kernel compares when a
    /// thread asks to block on it.
    pub fn peek(&self) -> (word: u32)
        ensures
            word == self.word(),
    {
        self.lock.word
    }

    /// The state in which a thread begins `lock` on this mutex: with the
    /// budget `SPINS`.
    pub fn enter(&self) -> (at: Lock)
        ensures
            at == Lock::begun(SPINS),
    {
        Lock::start(SPINS)
    }

    /// One step of `lock` by a thread that stands at `at`, which moves on.
    /// A thread begins at `enter()`. The step that wins the lock returns the
    /// guard, and with it the value.
    pub fn lock(&mut self, at: &mut Lock) -> (got: Option<Guard<T>>)
        requires
            old(self).wf(),
        ensures
            final(self).wf(),
            final(self).word() == crate::futex::Mutex::lock_step(old(self).word(), *old(at)).0,
            *final(at) == crate::futex::Mutex::lock_step(old(self).word(), *old(at)).1,
            got is Some <==> *final(at) == Lock::Held && *old(at) != Lock::Held,
            got matches Some(g) ==> Some(g@) == old(self).value() && final(self).value() is None,
            got is None ==> final(self).value() == old(self).value(),
    {
        let before: Lock = *at;
        *at = self.lock.lock(before);
        if *at == Lock::Held && before != Lock::Held {
            match self.valu.take() {
                Some(valu) => Some(Guard { valu }),
                None => None,
            }
        } else {
            None
        }
    }

    /// Takes the lock if it is free, in one access, and returns the guard if
    /// it did.
    pub fn try_lock(&mut self) -> (got: Option<Guard<T>>)
        requires
            old(self).wf(),
        ensures
            final(self).wf(),
            got is Some <==> !old(self).held(),
            got matches Some(g) ==> Some(g@) == old(self).value() && final(self).word() == 1
                && final(self).value() is None,
            got is None ==> final(self).word() == old(self).word()
                && final(self).value() == old(self).value(),
    {
        if self.lock.try_lock() {
            match self.valu.take() {
                Some(valu) => Some(Guard { valu }),
                None => None,
            }
        } else {
            None
        }
    }

    /// One step of what is left of `unlock` once the guard has been
    /// released, by a thread that stands at `at`. Only a guard can release:
    /// a thread that stands before the release stays where it is.
    pub fn unlock(&mut self, at: Unlock) -> (next: Unlock)
        requires
            old(self).wf(),
        ensures
            final(self).wf(),
            final(self).value() == old(self).value(),
            at is Release ==> next == at && final(self).word() == old(self).word(),
            !(at is Release) ==> final(self).word() == crate::futex::Mutex::unlock_step(
                old(self).word(),
                at,
            ).0 && next == crate::futex::Mutex::unlock_step(old(self).word(), at).1,
    {
        match at {
            Unlock::Release { .. } => at,
            _ => self.lock.unlock(at),
        }
    }
}

/// Where a thread stands inside `CondVar::wait`, and where the value is.
pub enum Waiting<T> {
    /// The thread still holds the lock, and the guard with it.
    Holding(Guard<T>, Wait),
    /// The thread has given up the lock; the value rests in the mutex, or
    /// in the guard of another thread.
    Parted(Wait),
    /// The thread is back from `wait` with the lock and a guard.
    Back(Guard<T>),
}

impl<T> Waiting<T> {
    /// Where the thread stands in the protocol of the condition variable.
    pub open spec fn cursor(self) -> Wait {
        match self {
            Waiting::Holding(_, at) => at,
            Waiting::Parted(at) => at,
            Waiting::Back(_) => Wait::Woken,
        }
    }

    /// The guard goes with the states before the release, no guard with
    /// those between the release and the return.
    pub open spec fn wf(self) -> bool {
        match self {
            Waiting::Holding(_, at) => at is Read || at is Look || at is Bind || at is Foreign || (
            at matches Wait::Unlock { at: inner, .. } && inner is Release),
            Waiting::Parted(at) => at is Sleep || at is Retake || at is Park || (
            at matches Wait::Unlock { at: inner, .. } && !(inner is Release) && !(inner is Done)),
            Waiting::Back(_) => true,
        }
    }

    /// The access to make next.
    pub fn action(&self) -> (a: Option<Action>)
        ensures
            a == self.cursor().pending(),
    {
        match self {
            Waiting::Holding(_, at) => at.action(),
            Waiting::Parted(at) => at.action(),
            Waiting::Back(_) => None,
        }
    }

    /// Begins `wait`: the thread hands in its guard. `mutex` is the address
    /// of the word of the mutex that the guard is of.
    pub fn start(guard: Guard<T>, mutex: usize) -> (at: Waiting<T>)
        ensures
            at == Waiting::Holding(guard, Wait::begun(mutex)),
            at.wf(),
    {
        Waiting::Holding(guard, Wait::start(mutex))
    }
}

/// A condition variable for threads that hold a guard.
pub struct CondVar(crate::futex::CondVar);

impl View for CondVar {
    type V = crate::futex::CondVar;

    closed spec fn view(&self) -> crate::futex::CondVar {
        self.0
    }
}

impl CondVar {
    /// A condition variable bound to no mutex.
    pub fn new() -> (c: CondVar)
        ensures
            c@ == (crate::futex::CondVar { ptr: 0, seq: 0 }),
    {
        CondVar(crate::futex::CondVar::new())
    }

    /// The condition variable as it stands: the generation is what the
    /// kernel compares when a thread asks to block on it.
    pub fn peek(&self) -> (c: crate::futex::CondVar)
        ensures
            c == self@,
    {
        self.0
    }

    /// One step of `wait` by a thread that stands at `at`. A thread begins
    /// at `Waiting::start(guard, mutex)`. With the step that gives up the
    /// lock the value returns to the mutex `m`; with the step that wins the
    /// lock back the thread gets a guard again.
    pub fn wait<T>(&mut self, m: &mut Mutex<T>, at: Waiting<T>) -> (next: Waiting<T>)
        requires
            old(m).wf(),
            at.wf(),
            at is Holding ==> old(m).held(),
        ensures
            final(m).wf(),
            next.wf(),
            next is Holding ==> final(m).held(),
            final(self)@ == old(self)@.wait_step(old(m).word(), at.cursor()).0,
            final(m).word() == old(self)@.wait_step(old(m).word(), at.cursor()).1,
            next.cursor() == old(self)@.wait_step(old(m).word(), at.cursor()).2,
            match at {
                Waiting::Holding(g, _) => if final(m).held() {
                    next matches Waiting::Holding(h, _) && h@ == g@ && final(m).value() is None
                } else {
                    next is Parted && final(m).value() == Some(g@)
                },
                Waiting::Parted(_) => if next.cursor() is Woken {
                    next matches Waiting::Back(h) && Some(h@) == old(m).value()
                        && final(m).value() is None
                } else {
                    next is Parted && final(m).value() == old(m).value()
                },
                Waiting::Back(g) => next == at && final(m).value() == old(m).value(),
            },
    {
        match at {
            Waiting::Holding(guard, cursor) => {
                let onward: Wait = self.0.wait(&mut m.lock, cursor);
                if m.lock.word == 0 {
                    m.valu = Some(guard.valu);
                    Waiting::Parted(onward)
                } else {
                    Waiting::Holding(guard, onward)
                }
            },
            Waiting::Parted(cursor) => {
                let onward: Wait = self.0.wait(&mut m.lock, cursor);
                if onward == Wait::Woken {
                    match m.valu.take() {
                        Some(valu) => Waiting::Back(Guard { valu }),
                        None => Waiting::Parted(onward),
                    }
                } else {
                    Waiting::Parted(onward)
                }
            },
            Waiting::Back(guard) => Waiting::Back(guard),
        }
    }

    /// One step of `notify_one` by a thread that stands at `at`.
    pub fn notify_one(&mut self, at: NotifyOne) -> (next: NotifyOne)
        ensures
            final(self)@ == old(self)@.notify_one_step(at).0,
            next == old(self)@.notify_one_step(at).1,
    {
        self.0.notify_one(at)
    }

    /// One step of `notify_all` by a thread that stands at `at`.
    pub fn notify_all(&mut self, at: NotifyAll) -> (next: NotifyAll)
        ensures
            final(self)@ == old(self)@.notify_all_step(at).0,
            next == old(self)@.notify_all_step(at).1,
    {
        self.0.notify_all(at)
    }
}

} // verus!
