//! What the proofs about blocked threads have in common: the state that the
//! threads share, the kernel included; when its two queues are in order; and
//! who looks after the threads in them.

use vstd::prelude::*;
use crate::futex::{Action, CondVar, Lock, Mutex, NotifyAll, NotifyOne, Place, Unlock, Wait};
use crate::kernel::{requeued, stirred, waited, woken};

verus! {

/// What happens next in a program: a thread is given the chance of a step,
/// or the kernel lets a thread return from its wait without having been
/// woken.
pub enum Event {
    Run(int),
    Stir(int),
}

/// What the threads of a program share, at one moment: a mutex, a condition
/// variable for it, and the kernel's queues for the two words that threads
/// block on. A thread is known to the kernel by its number.
pub struct Yard {
    /// The word of the mutex.
    pub word: u32,
    pub cv: CondVar,
    /// The threads blocked on the word of the mutex, the longest-blocked
    /// first.
    pub lock_q: Seq<int>,
    /// The threads blocked on the generation of the condition variable, the
    /// longest-blocked first.
    pub seq_q: Seq<int>,
    /// The address of the word of the mutex.
    pub mutex: usize,
    /// Who holds the lock.
    pub owner: Option<int>,
    /// Who has last taken it upon itself to look after the threads blocked
    /// on the mutex: by having given up a contended lock, or by having been
    /// woken.
    pub herald: Option<int>,
}

impl Yard {
    /// A free mutex whose word is at address `mutex`, a condition variable
    /// that is bound to nothing, and nobody blocked.
    pub open spec fn init(mutex: usize) -> Yard {
        Yard {
            word: 0,
            cv: CondVar { ptr: 0, seq: 0 },
            lock_q: Seq::empty(),
            seq_q: Seq::empty(),
            mutex,
            owner: None,
            herald: None,
        }
    }

    /// The queues after thread `i` has performed `a`. Asked to block the
    /// thread, the kernel does so exactly if the word holds what the thread
    /// expects; asked to wake, it wakes as many threads as it is asked to,
    /// if so many are blocked. Whoever it wakes to take the mutex becomes
    /// the herald.
    pub open spec fn served(self, a: Action, i: int) -> Yard {
        match a {
            Action::Wait { place: Place::Mutex, expected } => Yard {
                lock_q: waited(self.lock_q, self.word, expected, i),
                ..self
            },
            Action::Wait { place: Place::Epoch, expected } => Yard {
                seq_q: waited(self.seq_q, self.cv.seq, expected, i),
                ..self
            },
            Action::Wake { place: Place::Mutex, count } => Yard {
                lock_q: woken(self.lock_q, count),
                herald: if self.lock_q.len() > 0 && count > 0 {
                    Some(self.lock_q[0])
                } else {
                    self.herald
                },
                ..self
            },
            Action::Wake { place: Place::Epoch, count } => Yard {
                seq_q: woken(self.seq_q, count),
                ..self
            },
            Action::Requeue { place: Place::Epoch, wake, requeue, .. } => Yard {
                seq_q: requeued(self.seq_q, self.lock_q, wake, requeue).0,
                lock_q: requeued(self.seq_q, self.lock_q, wake, requeue).1,
                herald: if self.seq_q.len() > 0 && wake > 0 {
                    Some(self.seq_q[0])
                } else {
                    self.herald
                },
                ..self
            },
            _ => self,
        }
    }

    /// The books after thread `i` has taken a step of `unlock` from `at`
    /// that brought it to `next`: the release frees the lock, and a thread
    /// that goes on from it becomes the herald.
    pub open spec fn unlocked(self, i: int, at: Unlock, next: Unlock) -> Yard {
        if at is Release {
            Yard {
                owner: None,
                herald: if next == Unlock::Done {
                    self.herald
                } else {
                    Some(i)
                },
                ..self
            }
        } else {
            self
        }
    }

    /// The shared state and the thread's state after thread `i`, at `at`
    /// inside `lock`, has taken a step: what `Mutex::lock` does to the word
    /// and to the thread, and what the kernel does to the queues.
    pub open spec fn lock_step(self, i: int, at: Lock) -> (Yard, Lock) {
        match at.pending() {
            Some(a) => {
                let (word, next) = Mutex::lock_step(self.word, at);
                let yard = Yard { word, ..self.served(a, i) };
                if next == Lock::Held {
                    (Yard { owner: Some(i), ..yard }, next)
                } else {
                    (yard, next)
                }
            },
            None => (self, at),
        }
    }

    /// The same for `Mutex::unlock`.
    pub open spec fn unlock_step(self, i: int, at: Unlock) -> (Yard, Unlock) {
        match at.pending() {
            Some(a) => {
                let (word, next) = Mutex::unlock_step(self.word, at);
                (Yard { word, ..self.served(a, i) }.unlocked(i, at, next), next)
            },
            None => (self, at),
        }
    }

    /// The same for `CondVar::wait`.
    pub open spec fn wait_step(self, i: int, at: Wait) -> (Yard, Wait) {
        match at.pending() {
            Some(a) => {
                let (cv, word, next) = self.cv.wait_step(self.word, at);
                let yard = Yard { cv, word, ..self.served(a, i) };
                let books = match (at, next) {
                    (_, Wait::Woken) => Yard { owner: Some(i), ..yard },
                    (Wait::Unlock { at: inner, .. }, Wait::Unlock { at: onward, .. }) =>
                        yard.unlocked(i, inner, onward),
                    (Wait::Unlock { at: inner, .. }, _) => yard.unlocked(i, inner, Unlock::Done),
                    _ => yard,
                };
                (books, next)
            },
            None => (self, at),
        }
    }

    /// The same for `CondVar::notify_one`.
    pub open spec fn notify_one_step(self, i: int, at: NotifyOne) -> (Yard, NotifyOne) {
        match at.pending() {
            Some(a) => {
                let (cv, next) = self.cv.notify_one_step(at);
                (Yard { cv, ..self.served(a, i) }, next)
            },
            None => (self, at),
        }
    }

    /// The same for `CondVar::notify_all`.
    pub open spec fn notify_all_step(self, i: int, at: NotifyAll) -> (Yard, NotifyAll) {
        match at.pending() {
            Some(a) => {
                let (cv, next) = self.cv.notify_all_step(at);
                (Yard { cv, ..self.served(a, i) }, next)
            },
            None => (self, at),
        }
    }

    /// Whether the kernel has thread `i` blocked.
    pub open spec fn blocked(self, i: int) -> bool {
        self.lock_q.contains(i) || self.seq_q.contains(i)
    }

    /// The shared state after the kernel has let thread `i` return from its
    /// wait without having been woken.
    pub open spec fn stirred(self, i: int) -> Yard {
        Yard { lock_q: stirred(self.lock_q, i), seq_q: stirred(self.seq_q, i), ..self }
    }

    /// What holds of the words in every state that the programs here can
    /// reach: the word of the mutex is one of its three values and says
    /// unlocked exactly when nobody holds the lock, and the condition
    /// variable is bound to this mutex or to none.
    pub open spec fn sound(self) -> bool {
        &&& self.word <= 2
        &&& (self.owner is None) == (self.word == 0)
        &&& self.cv.ptr == 0 || self.cv.ptr == self.mutex
    }
}

/// A program of threads that share a yard, at one moment.
pub trait Floor {
    /// What the threads share.
    spec fn yard(&self) -> Yard;

    /// How many threads there are; they are known by the numbers below it.
    spec fn threads(&self) -> int;

    /// Whether thread `i` stands right behind a call to block on the mutex.
    spec fn on_lock(&self, i: int) -> bool;

    /// Whether thread `i` stands right behind a call to block on the
    /// generation.
    spec fn on_seq(&self, i: int) -> bool;

    /// Whether thread `i` is on its way to a step that wakes a thread
    /// blocked on the mutex or that marks its word contended.
    spec fn drives(&self, i: int) -> bool;
}

/// Whether the kernel has thread `i` blocked.
pub open spec fn blocked<F: Floor>(f: F, i: int) -> bool {
    f.yard().blocked(i)
}

/// The queues hold each blocked thread once, and only threads that stand
/// right behind a call to block.
pub open spec fn tidy<F: Floor>(f: F) -> bool {
    let lock_q = f.yard().lock_q;
    let seq_q = f.yard().seq_q;
    &&& forall|k: int|
        0 <= k < lock_q.len() ==> 0 <= #[trigger] lock_q[k] < f.threads() && f.on_lock(lock_q[k])
    &&& forall|k: int|
        0 <= k < seq_q.len() ==> 0 <= #[trigger] seq_q[k] < f.threads() && f.on_seq(seq_q[k])
    &&& lock_q.no_duplicates()
    &&& seq_q.no_duplicates()
    &&& forall|j: int, k: int|
        0 <= j < lock_q.len() && 0 <= k < seq_q.len() ==> #[trigger] lock_q[j]
            != #[trigger] seq_q[k]
}

/// While threads are blocked on the mutex, either its word says contended,
/// so that whoever holds it will wake one of them, or the herald is free to
/// run and on the way to doing so.
pub open spec fn heralded<F: Floor>(f: F) -> bool {
    f.yard().lock_q.len() > 0 ==> f.yard().word == 2 || (f.yard().herald matches Some(h) && 0 <= h
        < f.threads() && !blocked(f, h) && f.drives(h))
}

/// Whether the step from `f` to `n` changed no thread but `i`, as far as the
/// queues care.
pub open spec fn only<F: Floor>(f: F, n: F, i: int) -> bool {
    &&& n.threads() == f.threads()
    &&& 0 <= i < f.threads()
    &&& !blocked(f, i)
    &&& forall|j: int|
        0 <= j < f.threads() && j != i ==> (#[trigger] f.on_lock(j) ==> n.on_lock(j))
    &&& forall|j: int| 0 <= j < f.threads() && j != i ==> (#[trigger] f.on_seq(j) ==> n.on_seq(j))
    &&& forall|j: int| 0 <= j < f.threads() && j != i ==> (#[trigger] f.drives(j) ==> n.drives(j))
}

/// A step that leaves the queues alone leaves them in order, and blocks and
/// frees nobody.
pub(crate) proof fn queues_still<F: Floor>(f: F, n: F, i: int)
    requires
        tidy(f),
        only(f, n, i),
        n.yard().lock_q == f.yard().lock_q,
        n.yard().seq_q == f.yard().seq_q,
    ensures
        tidy(n),
        forall|j: int| blocked(n, j) == blocked(f, j),
{
    assert forall|k: int| 0 <= k < n.yard().lock_q.len() implies 0 <= (
    #[trigger] n.yard().lock_q[k]) < n.threads() && n.on_lock(n.yard().lock_q[k]) by {
        assert(f.on_lock(f.yard().lock_q[k]));
        assert(f.yard().lock_q.contains(f.yard().lock_q[k]));
    }
    assert forall|k: int| 0 <= k < n.yard().seq_q.len() implies 0 <= (
    #[trigger] n.yard().seq_q[k]) < n.threads() && n.on_seq(n.yard().seq_q[k]) by {
        assert(f.on_seq(f.yard().seq_q[k]));
        assert(f.yard().seq_q.contains(f.yard().seq_q[k]));
    }
}

/// The same step keeps the herald's promise, if nobody is blocked on the
/// mutex, or if the word says contended afterwards, or if `i` is the herald
/// afterwards and drives, or if the herald is who it was and `i` still
/// drives if it did.
pub(crate) proof fn herald_still<F: Floor>(f: F, n: F, i: int)
    requires
        heralded(f),
        tidy(f),
        only(f, n, i),
        n.yard().lock_q == f.yard().lock_q,
        n.yard().seq_q == f.yard().seq_q,
        n.yard().lock_q.len() == 0 || n.yard().word == 2 || (n.yard().herald == Some(i)
            && n.drives(i)) || (f.yard().word != 2 && n.yard().herald == f.yard().herald && (
        f.drives(i) ==> n.drives(i))),
    ensures
        heralded(n),
{
    queues_still(f, n, i);
    if n.yard().lock_q.len() > 0 && n.yard().word != 2 {
        if n.yard().herald == Some(i) && n.drives(i) {
            assert(!blocked(n, i));
        } else {
            let x = f.yard().herald->0;
            assert(!blocked(n, x));
            assert(f.drives(x));
        }
    }
}

/// A step in which thread `i` blocks on the mutex leaves the queues in
/// order.
pub(crate) proof fn queues_joined_lock<F: Floor>(f: F, n: F, i: int)
    requires
        tidy(f),
        only(f, n, i),
        n.yard().lock_q == f.yard().lock_q.push(i),
        n.yard().seq_q == f.yard().seq_q,
        n.on_lock(i),
    ensures
        tidy(n),
{
    assert forall|k: int| 0 <= k < n.yard().lock_q.len() implies 0 <= (
    #[trigger] n.yard().lock_q[k]) < n.threads() && n.on_lock(n.yard().lock_q[k]) by {
        if k < f.yard().lock_q.len() {
            assert(f.on_lock(f.yard().lock_q[k]));
            assert(f.yard().lock_q.contains(f.yard().lock_q[k]));
        }
    }
    assert forall|k: int| 0 <= k < n.yard().seq_q.len() implies 0 <= (
    #[trigger] n.yard().seq_q[k]) < n.threads() && n.on_seq(n.yard().seq_q[k]) by {
        assert(f.on_seq(f.yard().seq_q[k]));
        assert(f.yard().seq_q.contains(f.yard().seq_q[k]));
    }
    assert forall|j: int, k: int| 0 <= j < k < n.yard().lock_q.len() implies n.yard().lock_q[j]
        != n.yard().lock_q[k] by {
        assert(f.yard().lock_q.contains(f.yard().lock_q[j]));
    }
    assert forall|j: int, k: int|
        0 <= j < n.yard().lock_q.len() && 0 <= k < n.yard().seq_q.len() implies (
    #[trigger] n.yard().lock_q[j]) != (#[trigger] n.yard().seq_q[k]) by {
        assert(f.yard().seq_q.contains(f.yard().seq_q[k]));
    }
}

/// A step in which thread `i` blocks on the generation leaves the queues in
/// order, and keeps the herald's promise if word and herald stay as they
/// are and `i` did not drive.
pub(crate) proof fn queues_joined_seq<F: Floor>(f: F, n: F, i: int)
    requires
        tidy(f),
        heralded(f),
        only(f, n, i),
        n.yard().seq_q == f.yard().seq_q.push(i),
        n.yard().lock_q == f.yard().lock_q,
        n.on_seq(i),
        n.yard().word == f.yard().word,
        n.yard().herald == f.yard().herald,
        !f.drives(i),
    ensures
        tidy(n),
        heralded(n),
{
    assert forall|k: int| 0 <= k < n.yard().lock_q.len() implies 0 <= (
    #[trigger] n.yard().lock_q[k]) < n.threads() && n.on_lock(n.yard().lock_q[k]) by {
        assert(f.on_lock(f.yard().lock_q[k]));
        assert(f.yard().lock_q.contains(f.yard().lock_q[k]));
    }
    assert forall|k: int| 0 <= k < n.yard().seq_q.len() implies 0 <= (
    #[trigger] n.yard().seq_q[k]) < n.threads() && n.on_seq(n.yard().seq_q[k]) by {
        if k < f.yard().seq_q.len() {
            assert(f.on_seq(f.yard().seq_q[k]));
            assert(f.yard().seq_q.contains(f.yard().seq_q[k]));
        }
    }
    assert forall|j: int, k: int| 0 <= j < k < n.yard().seq_q.len() implies n.yard().seq_q[j]
        != n.yard().seq_q[k] by {
        assert(f.yard().seq_q.contains(f.yard().seq_q[j]));
    }
    assert forall|j: int, k: int|
        0 <= j < n.yard().lock_q.len() && 0 <= k < n.yard().seq_q.len() implies (
    #[trigger] n.yard().lock_q[j]) != (#[trigger] n.yard().seq_q[k]) by {
        assert(f.yard().lock_q.contains(f.yard().lock_q[j]));
    }
    if n.yard().lock_q.len() > 0 && n.yard().word != 2 {
        let x = f.yard().herald->0;
        assert(!n.yard().lock_q.contains(x));
        assert(!n.yard().seq_q.contains(x)) by {
            if n.yard().seq_q.contains(x) {
                let k = choose|k: int| 0 <= k < n.yard().seq_q.len() && n.yard().seq_q[k] == x;
                if k < f.yard().seq_q.len() {
                    assert(f.yard().seq_q.contains(x));
                }
            }
        }
    }
}

/// A step that wakes the thread that has been blocked on the mutex for
/// longest leaves the queues in order; the woken thread is free to run.
pub(crate) proof fn queues_woken_lock<F: Floor>(f: F, n: F, i: int)
    requires
        tidy(f),
        only(f, n, i),
        f.yard().lock_q.len() > 0,
        n.yard().lock_q == f.yard().lock_q.skip(1),
        n.yard().seq_q == f.yard().seq_q,
    ensures
        tidy(n),
        0 <= f.yard().lock_q[0] < f.threads(),
        f.yard().lock_q[0] != i,
        f.on_lock(f.yard().lock_q[0]),
        n.on_lock(f.yard().lock_q[0]),
        !blocked(n, f.yard().lock_q[0]),
{
    let first = f.yard().lock_q[0];
    assert(f.on_lock(first));
    assert(f.yard().lock_q.contains(first));
    assert forall|k: int| 0 <= k < n.yard().lock_q.len() implies 0 <= (
    #[trigger] n.yard().lock_q[k]) < n.threads() && n.on_lock(n.yard().lock_q[k]) by {
        assert(f.on_lock(f.yard().lock_q[k + 1]));
        assert(f.yard().lock_q.contains(f.yard().lock_q[k + 1]));
    }
    assert forall|k: int| 0 <= k < n.yard().seq_q.len() implies 0 <= (
    #[trigger] n.yard().seq_q[k]) < n.threads() && n.on_seq(n.yard().seq_q[k]) by {
        assert(f.on_seq(f.yard().seq_q[k]));
        assert(f.yard().seq_q.contains(f.yard().seq_q[k]));
    }
    assert forall|j: int, k: int|
        0 <= j < n.yard().lock_q.len() && 0 <= k < n.yard().seq_q.len() implies (
    #[trigger] n.yard().lock_q[j]) != (#[trigger] n.yard().seq_q[k]) by {
        assert(n.yard().lock_q[j] == f.yard().lock_q[j + 1]);
    }
    assert(!n.yard().lock_q.contains(first)) by {
        if n.yard().lock_q.contains(first) {
            let k = choose|k: int| 0 <= k < n.yard().lock_q.len() && n.yard().lock_q[k] == first;
            assert(f.yard().lock_q[k + 1] == first);
        }
    }
    assert(!n.yard().seq_q.contains(first)) by {
        if n.yard().seq_q.contains(first) {
            let k = choose|k: int| 0 <= k < n.yard().seq_q.len() && n.yard().seq_q[k] == first;
            assert(f.yard().lock_q[0] != f.yard().seq_q[k]);
        }
    }
}

/// A step that wakes the thread that has been blocked on the generation for
/// longest leaves the queues in order; the woken thread is free to run.
pub(crate) proof fn queues_woken_seq<F: Floor>(f: F, n: F, i: int)
    requires
        tidy(f),
        only(f, n, i),
        f.yard().seq_q.len() > 0,
        n.yard().seq_q == f.yard().seq_q.skip(1),
        n.yard().lock_q == f.yard().lock_q,
    ensures
        tidy(n),
        0 <= f.yard().seq_q[0] < f.threads(),
        f.yard().seq_q[0] != i,
        !blocked(n, f.yard().seq_q[0]),
        forall|j: int| j != f.yard().seq_q[0] ==> blocked(n, j) == blocked(f, j),
{
    let first = f.yard().seq_q[0];
    assert(f.on_seq(first));
    assert(f.yard().seq_q.contains(first));
    assert forall|k: int| 0 <= k < n.yard().lock_q.len() implies 0 <= (
    #[trigger] n.yard().lock_q[k]) < n.threads() && n.on_lock(n.yard().lock_q[k]) by {
        assert(f.on_lock(f.yard().lock_q[k]));
        assert(f.yard().lock_q.contains(f.yard().lock_q[k]));
    }
    assert forall|k: int| 0 <= k < n.yard().seq_q.len() implies 0 <= (
    #[trigger] n.yard().seq_q[k]) < n.threads() && n.on_seq(n.yard().seq_q[k]) by {
        assert(f.on_seq(f.yard().seq_q[k + 1]));
        assert(f.yard().seq_q.contains(f.yard().seq_q[k + 1]));
    }
    assert forall|j: int, k: int|
        0 <= j < n.yard().lock_q.len() && 0 <= k < n.yard().seq_q.len() implies (
    #[trigger] n.yard().lock_q[j]) != (#[trigger] n.yard().seq_q[k]) by {
        assert(n.yard().seq_q[k] == f.yard().seq_q[k + 1]);
    }
    assert(!n.yard().seq_q.contains(first)) by {
        if n.yard().seq_q.contains(first) {
            let k = choose|k: int| 0 <= k < n.yard().seq_q.len() && n.yard().seq_q[k] == first;
            assert(f.yard().seq_q[k + 1] == first);
        }
    }
    assert(!n.yard().lock_q.contains(first)) by {
        if n.yard().lock_q.contains(first) {
            let k = choose|k: int| 0 <= k < n.yard().lock_q.len() && n.yard().lock_q[k] == first;
            assert(f.yard().lock_q[k] != f.yard().seq_q[0]);
        }
    }
    assert forall|j: int| j != first implies blocked(n, j) == blocked(f, j) by {
        if f.yard().seq_q.contains(j) {
            let k = choose|k: int| 0 <= k < f.yard().seq_q.len() && f.yard().seq_q[k] == j;
            assert(n.yard().seq_q[k - 1] == j);
        }
        if n.yard().seq_q.contains(j) {
            let k = choose|k: int| 0 <= k < n.yard().seq_q.len() && n.yard().seq_q[k] == j;
            assert(f.yard().seq_q[k + 1] == j);
        }
    }
}

/// A thread that does not stand right behind a call to block is not
/// blocked.
pub(crate) proof fn free_elsewhere<F: Floor>(f: F, i: int)
    requires
        tidy(f),
        !f.on_lock(i),
        !f.on_seq(i),
    ensures
        !blocked(f, i),
{
    let lock_q = f.yard().lock_q;
    let seq_q = f.yard().seq_q;
    if lock_q.contains(i) {
        let k = choose|k: int| 0 <= k < lock_q.len() && lock_q[k] == i;
        assert(f.on_lock(lock_q[k]));
    }
    if seq_q.contains(i) {
        let k = choose|k: int| 0 <= k < seq_q.len() && seq_q[k] == i;
        assert(f.on_seq(seq_q[k]));
    }
}

/// A queue that holds each of its threads once, all of them below `n`, holds
/// at most `n`.
pub(crate) proof fn queue_is_short(q: Seq<int>, n: int)
    requires
        q.no_duplicates(),
        0 <= n,
        forall|k: int| 0 <= k < q.len() ==> 0 <= #[trigger] q[k] < n,
    ensures
        q.len() <= n,
{
    q.unique_seq_to_set();
    vstd::set_lib::lemma_int_range(0, n);
    assert(q.to_set().subset_of(vstd::set_lib::set_int_range(0, n))) by {
        assert forall|x: int| q.to_set().contains(x) implies vstd::set_lib::set_int_range(
            0,
            n,
        ).contains(x) by {
            let k = choose|k: int| 0 <= k < q.len() && q[k] == x;
            assert(0 <= q[k] < n);
        }
    }
    vstd::set_lib::lemma_len_subset(q.to_set(), vstd::set_lib::set_int_range(0, n));
}

/// A step that wakes the thread that has been blocked on the generation for
/// longest and moves all others over to the mutex leaves the queues in
/// order, provided that a thread that could block on the generation could
/// block on the mutex where it stands; the woken thread is free to run.
pub(crate) proof fn queues_moved<F: Floor>(f: F, n: F, i: int)
    requires
        tidy(f),
        only(f, n, i),
        f.yard().seq_q.len() > 0,
        n.yard().seq_q == Seq::<int>::empty(),
        n.yard().lock_q == f.yard().lock_q + f.yard().seq_q.skip(1),
        forall|j: int| 0 <= j < f.threads() && j != i && f.on_seq(j) ==> #[trigger] n.on_lock(j),
    ensures
        tidy(n),
        0 <= f.yard().seq_q[0] < f.threads(),
        f.yard().seq_q[0] != i,
        f.on_seq(f.yard().seq_q[0]),
        !blocked(n, f.yard().seq_q[0]),
{
    let first = f.yard().seq_q[0];
    assert(f.on_seq(first));
    assert(f.yard().seq_q.contains(first));
    assert forall|k: int| 0 <= k < n.yard().lock_q.len() implies 0 <= (
    #[trigger] n.yard().lock_q[k]) < n.threads() && n.on_lock(n.yard().lock_q[k]) by {
        if k < f.yard().lock_q.len() {
            assert(f.on_lock(f.yard().lock_q[k]));
            assert(f.yard().lock_q.contains(f.yard().lock_q[k]));
        } else {
            let m = k - f.yard().lock_q.len() + 1;
            assert(n.yard().lock_q[k] == f.yard().seq_q[m]);
            assert(f.on_seq(f.yard().seq_q[m]));
            assert(f.yard().seq_q.contains(f.yard().seq_q[m]));
        }
    }
    assert forall|j: int, k: int| 0 <= j < k < n.yard().lock_q.len() implies n.yard().lock_q[j]
        != n.yard().lock_q[k] by {
        if k >= f.yard().lock_q.len() {
            let m = k - f.yard().lock_q.len() + 1;
            assert(n.yard().lock_q[k] == f.yard().seq_q[m]);
            if j >= f.yard().lock_q.len() {
                assert(n.yard().lock_q[j] == f.yard().seq_q[j - f.yard().lock_q.len() + 1]);
            } else {
                assert(f.yard().lock_q[j] != f.yard().seq_q[m]);
            }
        }
    }
    assert(!n.yard().lock_q.contains(first)) by {
        if n.yard().lock_q.contains(first) {
            let k = choose|k: int| 0 <= k < n.yard().lock_q.len() && n.yard().lock_q[k] == first;
            if k < f.yard().lock_q.len() {
                assert(f.yard().lock_q[k] != f.yard().seq_q[0]);
            } else {
                assert(n.yard().lock_q[k] == f.yard().seq_q[k - f.yard().lock_q.len() + 1]);
            }
        }
    }
}


/// A queue from which a thread has returned without being woken holds it no
/// more, holds nobody that it did not hold, and holds each of its threads
/// once if it did so before.
pub(crate) proof fn stirred_is_part(q: Seq<int>, i: int)
    ensures
        !stirred(q, i).contains(i),
        forall|x: int| #[trigger] stirred(q, i).contains(x) ==> q.contains(x),
        stirred(q, i).len() <= q.len(),
        q.no_duplicates() ==> stirred(q, i).no_duplicates(),
    decreases q.len(),
{
    let out = stirred(q, i);
    reveal(Seq::filter);
    if q.len() > 0 {
        let front = q.drop_last();
        let last = q.last();
        stirred_is_part(front, i);
        let sub = stirred(front, i);
        assert(out == if last != i {
            sub.push(last)
        } else {
            sub
        });
        assert forall|x: int| #[trigger] out.contains(x) implies q.contains(x) by {
            let k = choose|k: int| 0 <= k < out.len() && out[k] == x;
            if k < sub.len() {
                assert(sub[k] == x);
                assert(sub.contains(x));
                assert(front.contains(x));
                let m = choose|m: int| 0 <= m < front.len() && front[m] == x;
                assert(q[m] == x);
            } else {
                assert(q[q.len() - 1] == x);
            }
        }
        if out.contains(i) {
            let k = choose|k: int| 0 <= k < out.len() && out[k] == i;
            if k < sub.len() {
                assert(sub[k] == i);
                assert(sub.contains(i));
            }
        }
        if q.no_duplicates() {
            assert(front.no_duplicates());
            assert forall|j: int, k: int| 0 <= j < k < out.len() implies out[j] != out[k] by {
                if k == sub.len() {
                    assert(sub[j] == out[j]);
                    assert(sub.contains(out[j]));
                    assert(front.contains(out[j]));
                    let m = choose|m: int| 0 <= m < front.len() && front[m] == out[j];
                    assert(q[m] == out[j]);
                } else {
                    assert(sub[j] != sub[k]);
                }
            }
        }
    }
}

/// When the kernel lets thread `i` return without having been woken, the
/// queues stay in order and the herald's promise is kept; the thread is
/// free to run, and nobody else is blocked who was not.
pub(crate) proof fn queues_stirred<F: Floor>(f: F, n: F, i: int)
    requires
        tidy(f),
        heralded(f),
        n.threads() == f.threads(),
        n.yard() == f.yard().stirred(i),
        forall|j: int| 0 <= j < f.threads() ==> (#[trigger] f.on_lock(j) ==> n.on_lock(j)),
        forall|j: int| 0 <= j < f.threads() ==> (#[trigger] f.on_seq(j) ==> n.on_seq(j)),
        forall|j: int| 0 <= j < f.threads() ==> (#[trigger] f.drives(j) ==> n.drives(j)),
    ensures
        tidy(n),
        heralded(n),
        !blocked(n, i),
        forall|j: int| blocked(n, j) ==> blocked(f, j),
        forall|j: int| n.yard().seq_q.contains(j) ==> f.yard().seq_q.contains(j),
        n.yard().seq_q.len() > 0 ==> f.yard().seq_q.len() > 0,
{
    stirred_is_part(f.yard().lock_q, i);
    stirred_is_part(f.yard().seq_q, i);
    assert forall|k: int| 0 <= k < n.yard().lock_q.len() implies 0 <= (
    #[trigger] n.yard().lock_q[k]) < n.threads() && n.on_lock(n.yard().lock_q[k]) by {
        let x = n.yard().lock_q[k];
        assert(n.yard().lock_q.contains(x));
        let m = choose|m: int| 0 <= m < f.yard().lock_q.len() && f.yard().lock_q[m] == x;
        assert(f.on_lock(f.yard().lock_q[m]));
    }
    assert forall|k: int| 0 <= k < n.yard().seq_q.len() implies 0 <= (
    #[trigger] n.yard().seq_q[k]) < n.threads() && n.on_seq(n.yard().seq_q[k]) by {
        let x = n.yard().seq_q[k];
        assert(n.yard().seq_q.contains(x));
        let m = choose|m: int| 0 <= m < f.yard().seq_q.len() && f.yard().seq_q[m] == x;
        assert(f.on_seq(f.yard().seq_q[m]));
    }
    assert forall|j: int, k: int|
        0 <= j < n.yard().lock_q.len() && 0 <= k < n.yard().seq_q.len() implies (
    #[trigger] n.yard().lock_q[j]) != (#[trigger] n.yard().seq_q[k]) by {
        let x = n.yard().lock_q[j];
        let y = n.yard().seq_q[k];
        assert(n.yard().lock_q.contains(x));
        assert(n.yard().seq_q.contains(y));
        let a = choose|a: int| 0 <= a < f.yard().lock_q.len() && f.yard().lock_q[a] == x;
        let b = choose|b: int| 0 <= b < f.yard().seq_q.len() && f.yard().seq_q[b] == y;
        assert(f.yard().lock_q[a] != f.yard().seq_q[b]);
    }
    if n.yard().lock_q.len() > 0 {
        assert(n.yard().lock_q.contains(n.yard().lock_q[0]));
        if n.yard().word != 2 {
            let x = f.yard().herald->0;
            assert(f.drives(x));
        }
    }
    if n.yard().seq_q.len() > 0 {
        assert(n.yard().seq_q.contains(n.yard().seq_q[0]));
    }
}


/// The sum of `f` over the numbers below `n`.
pub open spec fn tally(f: spec_fn(int) -> nat, n: nat) -> nat
    decreases n,
{
    if n == 0 {
        0
    } else {
        tally(f, (n - 1) as nat) + f(n - 1)
    }
}

/// Two sums whose terms differ at `i` alone, if anywhere, differ by as much
/// as that term.
pub(crate) proof fn tally_differs_at(f: spec_fn(int) -> nat, g: spec_fn(int) -> nat, n: nat, i: int)
    requires
        forall|j: int| 0 <= j < n && j != i ==> #[trigger] f(j) == g(j),
    ensures
        0 <= i < n ==> tally(g, n) == tally(f, n) - f(i) + g(i),
        !(0 <= i < n) ==> tally(g, n) == tally(f, n),
    decreases n,
{
    if n > 0 {
        tally_differs_at(f, g, (n - 1) as nat, i);
        if i != n - 1 {
            assert(f(n - 1) == g(n - 1));
        }
    }
}


/// Whether `at` is a state that `lock` passes through with a budget of
/// `spins` before it ends.
pub open spec fn lock_within(at: Lock, spins: usize) -> bool {
    match at {
        Lock::Spin { left } => 1 <= left <= spins,
        Lock::Relax { left } => left < spins,
        Lock::Mark => true,
        Lock::Park => true,
        Lock::Remark => true,
        _ => false,
    }
}

/// Whether `at` is a state that `unlock` passes through with a budget of
/// `spins` before it ends.
pub open spec fn unlock_within(at: Unlock, spins: usize) -> bool {
    match at {
        Unlock::Release { spins: budget } => budget == spins,
        Unlock::Peek { left } => 1 <= left <= spins,
        Unlock::Claim { left } => 1 <= left <= spins,
        Unlock::Relax { left } => left < spins,
        Unlock::Wake => true,
        Unlock::Done => false,
    }
}

/// A bound on the steps that a thread at `at` takes before `lock` ends, if
/// it finds the lock free whenever it looks.
pub open spec fn lock_effort(at: Lock) -> nat {
    match at {
        Lock::Remark => 3,
        Lock::Park => 4,
        Lock::Mark => 5,
        Lock::Spin { left } => (2 * left + 6) as nat,
        Lock::Relax { left } => (2 * left + 7) as nat,
        _ => 0,
    }
}

/// A bound on the steps that a thread at `at` takes before `unlock` ends,
/// if it finds the lock free whenever it looks.
pub open spec fn unlock_effort(at: Unlock) -> nat {
    match at {
        Unlock::Done => 0,
        Unlock::Wake => 1,
        Unlock::Claim { left } => (3 * left + 2) as nat,
        Unlock::Peek { left } => (3 * left + 3) as nat,
        Unlock::Relax { left } => (3 * left + 4) as nat,
        Unlock::Release { spins } => (3 * spins + 5) as nat,
    }
}


/// A step of `lock` on a free mutex wins the lock, or else leaves less to
/// do.
pub(crate) proof fn lock_shrinks(at: Lock, spins: usize)
    requires
        lock_within(at, spins),
    ensures
        ({
            let next = Mutex::lock_step(0, at).1;
            next == Lock::Held || (lock_within(next, spins) && lock_effort(next) < lock_effort(at))
        }),
{
}

/// A step of `unlock` that is the release, or that finds the mutex free,
/// ends the operation, or else leaves less to do.
pub(crate) proof fn unlock_shrinks(word: u32, at: Unlock, spins: usize)
    requires
        unlock_within(at, spins),
        word == 0 || at is Release,
    ensures
        ({
            let next = Mutex::unlock_step(word, at).1;
            next == Unlock::Done || (unlock_within(next, spins) && !(next is Release)
                && unlock_effort(next) < unlock_effort(at))
        }),
{
}

} // verus!
