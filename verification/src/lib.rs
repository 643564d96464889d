//! Thread synchronisation over a futex-style wait queue: a mutual-exclusion
//! lock, a condition variable and a rendezvous barrier.
//!
//! Every operation is a small machine. In each state it names the one atomic
//! access or kernel call the calling thread has to make next, and it moves on
//! from what that access returned. The machines hold every decision of the
//! protocols; a caller only carries out the accesses. The types here carry
//! the shared words as plain integers, so that one step of one thread is an
//! ordinary function and whole interleavings can be reasoned about.
//!
//! - `futex`: the accesses, the machines, and the mutex, barrier and
//!   condition variable as words.
//! - `kernel`: the queues of blocked threads, and what waiting, waking and
//!   requeueing do to them.
//! - `monitor`, `barrier`: the mutex that owns its value, its guard and its
//!   condition variable; the barrier as callers see it.
//! - `exclusion`, `rounds`, `handoff`, `broadcast`: what holds of the
//!   programs that the primitives are for, under every interleaving; with
//!   `parking`, which holds what their proofs share.

pub mod barrier;
pub mod broadcast;
pub mod exclusion;
pub mod futex;
pub mod handoff;
pub mod kernel;
pub mod monitor;
pub mod parking;
pub mod rounds;

pub use crate::barrier::Barrier;
pub use crate::monitor::{CondVar, Guard, Mutex, Waiting};
