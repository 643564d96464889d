//! The barrier as callers see it.

use vstd::prelude::*;
use crate::futex::Rendezvous;

verus! {

/// Thread barrier.
pub struct Barrier(crate::futex::Barrier);

impl View for Barrier {
    type V = crate::futex::Barrier;

    closed spec fn view(&self) -> crate::futex::Barrier {
        self.0
    }
}

impl Barrier {
    /// Makes a barrier for `n` threads.
    pub fn new(n: usize) -> (b: Barrier)
        ensures
            b@ == (crate::futex::Barrier { n_waiting: 0, n_total: n, seq: 0 }),
    {
        Barrier(crate::futex::Barrier::new(n))
    }

    /// The barrier as it stands: the generation is what the kernel compares
    /// when a thread asks to block on it.
    pub fn peek(&self) -> (b: crate::futex::Barrier)
        ensures
            b == self@,
    {
        self.0
    }

    /// The state in which a thread begins `wait` on this barrier.
    pub fn enter(&self) -> (at: Rendezvous)
        ensures
            at == Rendezvous::begun(self@.n_total),
    {
        Rendezvous::start(self.0.n_total)
    }

    /// One step of `wait` by a thread that stands at `at`. A thread begins
    /// at `enter()`. Once all threads have reached the barrier, `wait` ends
    /// at `Rendezvous::Leader`, that is with `true`, in the one thread that
    /// arrived last, and at `Rendezvous::Released`, with `false`, in the
    /// rest.
    pub fn wait(&mut self, at: Rendezvous) -> (next: Rendezvous)
        ensures
            final(self)@ == old(self)@.wait_step(at).0,
            next == old(self)@.wait_step(at).1,
    {
        self.0.wait(at)
    }
}

} // verus!
