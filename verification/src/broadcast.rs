//! The condition variable, shown on the program it is meant for: any number
//! of threads that wait, under the mutex, for a flag to be raised, and one
//! thread that raises it under the mutex and then calls `notify_all`; under
//! every interleaving of their steps.
//!
//! The kernel is part of the picture. A thread that has blocked takes no
//! step until the kernel lets it go, which it does when asked to wake it,
//! and which it may do at any time without being asked. What is proved is
//! that nobody is left behind.

use vstd::prelude::*;
use crate::futex::{Lock, NotifyAll, Unlock, Wait, SPINS};
use crate::kernel::woken;
use crate::parking::{
    blocked,
    free_elsewhere,
    herald_still,
    heralded,
    only,
    queue_is_short,
    queues_joined_lock,
    queues_joined_seq,
    queues_moved,
    queues_stirred,
    queues_still,
    queues_woken_lock,
    lock_effort,
    lock_shrinks,
    lock_within,
    tally,
    tally_differs_at,
    tidy,
    unlock_effort,
    unlock_shrinks,
    unlock_within,
    Event,
    Floor,
    Yard,
};

verus! {

/// Where an actor stands in its program.
pub enum Spot {
    /// Inside `lock`.
    Locking(Lock),
    /// A waiter, holding the lock, about to look at the flag.
    Test,
    /// A waiter inside the condition variable's `wait`.
    Waiting(Wait),
    /// The notifier, holding the lock, about to raise the flag.
    Raise,
    /// Inside `unlock`.
    Leaving(Unlock),
    /// The notifier inside `notify_all`.
    Notifying(NotifyAll),
    /// Done.
    Finished,
}

/// One thread of the program.
pub struct Actor {
    pub spot: Spot,
    /// How often it has found the flag raised.
    pub seen: nat,
}

/// The whole program at one moment. The actors are the waiters, followed by
/// the notifier; each is known to the kernel by its index.
pub struct Hall {
    pub yard: Yard,
    /// The flag that the waiters wait for.
    pub ready: bool,
    pub actors: Seq<Actor>,
}

impl Actor {
    /// Whether the actor is between winning the lock and giving it back.
    pub open spec fn holds(self) -> bool {
        match self.spot {
            Spot::Test => true,
            Spot::Raise => true,
            Spot::Waiting(Wait::Read { .. }) => true,
            Spot::Waiting(Wait::Look { .. }) => true,
            Spot::Waiting(Wait::Bind { .. }) => true,
            Spot::Waiting(Wait::Unlock { at: Unlock::Release { .. }, .. }) => true,
            Spot::Leaving(Unlock::Release { .. }) => true,
            _ => false,
        }
    }

    /// Whether the actor is on its way to a step that wakes a thread blocked
    /// on the mutex or that marks its word contended.
    pub open spec fn drives(self) -> bool {
        match self.spot {
            Spot::Locking(Lock::Mark) => true,
            Spot::Locking(Lock::Remark) => true,
            Spot::Waiting(Wait::Retake) => true,
            Spot::Waiting(Wait::Unlock { at, .. }) => at is Peek || at is Claim || at is Relax
                || at is Wake,
            Spot::Leaving(at) => at is Peek || at is Claim || at is Relax || at is Wake,
            _ => false,
        }
    }
}

impl Hall {
    /// The program before any step: `waiters` waiters and the notifier, all
    /// about to lock the mutex whose word is at address `mutex`.
    pub open spec fn init(waiters: nat, mutex: usize) -> Hall {
        Hall {
            yard: Yard::init(mutex),
            ready: false,
            actors: Seq::new(
                waiters + 1,
                |i: int| Actor { spot: Spot::Locking(Lock::begun(SPINS)), seen: 0 },
            ),
        }
    }

    /// The index of the notifier.
    pub open spec fn notifier(self) -> int {
        self.actors.len() - 1
    }

    /// Whether the kernel has actor `i` blocked.
    pub open spec fn blocked(self, i: int) -> bool {
        self.yard.blocked(i)
    }

    /// The program with the shared state `yard` and actor `i` at `spot`.
    pub open spec fn moved(self, yard: Yard, i: int, spot: Spot) -> Hall {
        Hall { yard, actors: self.actors.update(i, Actor { spot, ..self.actors[i] }), ..self }
    }

    /// The program after actor `i`, at `at` inside `lock`, has taken a step.
    /// With the lock a waiter goes on to look at the flag, and the notifier
    /// to raise it.
    pub open spec fn lock_step(self, i: int, at: Lock) -> Hall {
        let (yard, next) = self.yard.lock_step(i, at);
        if next != Lock::Held {
            self.moved(yard, i, Spot::Locking(next))
        } else if i == self.notifier() {
            self.moved(yard, i, Spot::Raise)
        } else {
            self.moved(yard, i, Spot::Test)
        }
    }

    /// The program after waiter `i` has looked at the flag: if it is
    /// raised, the waiter takes note and goes on to unlock; if not, it goes
    /// on to wait.
    pub open spec fn test_step(self, i: int) -> Hall {
        if self.ready {
            Hall {
                actors: self.actors.update(
                    i,
                    Actor {
                        spot: Spot::Leaving(Unlock::begun(SPINS)),
                        seen: self.actors[i].seen + 1,
                    },
                ),
                ..self
            }
        } else {
            self.moved(self.yard, i, Spot::Waiting(Wait::begun(self.yard.mutex)))
        }
    }

    /// The program after actor `i`, at `at` inside `wait`, has taken a step.
    /// Back from `wait`, a waiter looks at the flag again.
    pub open spec fn wait_step(self, i: int, at: Wait) -> Hall {
        let (yard, next) = self.yard.wait_step(i, at);
        if next == Wait::Woken {
            self.moved(yard, i, Spot::Test)
        } else {
            self.moved(yard, i, Spot::Waiting(next))
        }
    }

    /// The program after the notifier `i` has raised the flag.
    pub open spec fn raise_step(self, i: int) -> Hall {
        Hall { ready: true, ..self }.moved(self.yard, i, Spot::Leaving(Unlock::begun(SPINS)))
    }

    /// The program after actor `i`, at `at` inside `unlock`, has taken a
    /// step. After `unlock` a waiter has finished, and the notifier goes on
    /// to notify.
    pub open spec fn leave_step(self, i: int, at: Unlock) -> Hall {
        let (yard, next) = self.yard.unlock_step(i, at);
        if next != Unlock::Done {
            self.moved(yard, i, Spot::Leaving(next))
        } else if i == self.notifier() {
            self.moved(yard, i, Spot::Notifying(NotifyAll::begun()))
        } else {
            self.moved(yard, i, Spot::Finished)
        }
    }

    /// The program after actor `i`, at `at` inside `notify_all`, has taken a
    /// step.
    pub open spec fn notify_step(self, i: int, at: NotifyAll) -> Hall {
        let (yard, next) = self.yard.notify_all_step(i, at);
        if next != NotifyAll::Done {
            self.moved(yard, i, Spot::Notifying(next))
        } else {
            self.moved(yard, i, Spot::Finished)
        }
    }

    /// The program after actor `i` has taken its next step. A blocked actor
    /// takes none, nor does one that has finished or that does not exist.
    #[verifier::opaque]
    pub open spec fn act(self, i: int) -> Hall {
        if 0 <= i < self.actors.len() && !self.blocked(i) {
            match self.actors[i].spot {
                Spot::Locking(at) => self.lock_step(i, at),
                Spot::Test => self.test_step(i),
                Spot::Waiting(at) => self.wait_step(i, at),
                Spot::Raise => self.raise_step(i),
                Spot::Leaving(at) => self.leave_step(i, at),
                Spot::Notifying(at) => self.notify_step(i, at),
                Spot::Finished => self,
            }
        } else {
            self
        }
    }

    /// The program after `e` has happened.
    pub open spec fn step(self, e: Event) -> Hall {
        match e {
            Event::Run(i) => self.act(i),
            Event::Stir(i) => Hall { yard: self.yard.stirred(i), ..self },
        }
    }

    /// The program after the events of `schedule` have happened, in that
    /// order.
    pub open spec fn run(self, schedule: Seq<Event>) -> Hall
        decreases schedule.len(),
    {
        if schedule.len() == 0 {
            self
        } else {
            self.run(schedule.drop_last()).step(schedule.last())
        }
    }

    /// Whether every actor has finished.
    pub open spec fn finished(self) -> bool {
        forall|i: int| 0 <= i < self.actors.len() ==> (#[trigger] self.actors[i]).spot is Finished
    }

    /// Whether no actor can take a step: each has finished or is blocked.
    pub open spec fn stuck(self) -> bool {
        forall|i: int|
            0 <= i < self.actors.len() ==> (#[trigger] self.actors[i]).spot is Finished
                || self.blocked(i)
    }
}


impl Floor for Hall {
    open spec fn yard(&self) -> Yard {
        self.yard
    }

    open spec fn threads(&self) -> int {
        self.actors.len() as int
    }

    open spec fn on_lock(&self, i: int) -> bool {
        self.actors[i].spot == Spot::Locking(Lock::Remark) || self.actors[i].spot == Spot::Waiting(
            Wait::Retake,
        )
    }

    open spec fn on_seq(&self, i: int) -> bool {
        i < self.notifier() && self.actors[i].spot == Spot::Waiting(Wait::Retake)
    }

    open spec fn drives(&self, i: int) -> bool {
        self.actors[i].drives()
    }
}

impl Hall {
    /// What holds of actor `i` in every reachable state.
    pub open spec fn settled(self, i: int) -> bool {
        let me = self.actors[i];
        let last = i == self.notifier();
        &&& (self.yard.owner == Some(i)) == me.holds()
        &&& match me.spot {
            Spot::Locking(at) => me.seen == 0 && lock_within(at, SPINS),
            Spot::Test => !last && me.seen == 0,
            Spot::Waiting(at) => !last && me.seen == 0 && match at {
                Wait::Read { mutex } => mutex == self.yard.mutex && !self.ready,
                Wait::Look { mutex, epoch } => mutex == self.yard.mutex && epoch == 0
                    && !self.ready,
                Wait::Bind { mutex, epoch } => mutex == self.yard.mutex && epoch == 0
                    && !self.ready,
                Wait::Unlock { epoch, at } => epoch == 0 && unlock_within(at, SPINS)
                    && self.yard.cv.ptr == self.yard.mutex && (at is Release ==> !self.ready),
                Wait::Sleep { epoch } => epoch == 0 && self.yard.cv.ptr == self.yard.mutex,
                Wait::Retake => self.yard.cv.ptr == self.yard.mutex,
                Wait::Park => self.yard.cv.ptr == self.yard.mutex,
                Wait::Woken => false,
                Wait::Foreign => false,
            },
            Spot::Raise => last && me.seen == 0,
            Spot::Leaving(at) => unlock_within(at, SPINS) && me.seen == if last {
                0nat
            } else {
                1nat
            },
            Spot::Notifying(at) => last && me.seen == 0 && match at {
                NotifyAll::Look => true,
                NotifyAll::Bump { to } => to == self.yard.mutex,
                NotifyAll::Move { to } => to == self.yard.mutex && self.yard.cv.seq == 1,
                NotifyAll::Done => false,
            },
            Spot::Finished => me.seen == if last {
                0nat
            } else {
                1nat
            },
        }
    }

    /// What holds of the shared words and of the notifier.
    pub open spec fn inv_words(self) -> bool {
        let boss = self.actors[self.notifier()];
        &&& 1 <= self.actors.len() <= usize::MAX
        &&& self.yard.sound()
        &&& self.yard.mutex != 0
        &&& self.yard.owner matches Some(o) ==> 0 <= o < self.actors.len()
        &&& self.yard.cv.seq == 0 || self.yard.cv.seq == 1
        &&& self.ready == (boss.spot is Leaving || boss.spot is Notifying || boss.spot is Finished)
        &&& self.yard.cv.seq == 1 ==> boss.spot is Finished || (
        boss.spot matches Spot::Notifying(at) && at is Move)
        &&& boss.spot is Finished && self.yard.cv.seq == 0 ==> forall|i: int|
            0 <= i < self.actors.len() ==> !((#[trigger] self.actors[i]).spot is Waiting)
        &&& self.yard.seq_q.len() > 0 ==> !(boss.spot is Finished)
    }

    /// What holds of every actor.
    pub open spec fn inv_actors(self) -> bool {
        forall|i: int| 0 <= i < self.actors.len() ==> #[trigger] self.settled(i)
    }

    /// What holds in every state the program can reach.
    #[verifier::opaque]
    pub open spec fn inv(self) -> bool {
        &&& self.inv_words()
        &&& heralded(self)
        &&& tidy(self)
        &&& self.inv_actors()
    }

    /// Whether the step to `n` changed no actor but `i`, which was free to
    /// run.
    pub open spec fn alone(self, n: Hall, i: int) -> bool {
        &&& 0 <= i < self.actors.len()
        &&& !self.blocked(i)
        &&& n.actors.len() == self.actors.len()
        &&& forall|j: int| 0 <= j < self.actors.len() && j != i ==> n.actors[j] == self.actors[j]
    }
}

proof fn init_inv(waiters: usize, mutex: usize)
    requires
        mutex != 0,
        waiters < usize::MAX,
    ensures
        Hall::init(waiters as nat, mutex).inv(),
{
    reveal(Hall::inv);
    let h = Hall::init(waiters as nat, mutex);
    assert forall|i: int| 0 <= i < h.actors.len() implies #[trigger] h.settled(i) by {}
}

/// A step that changes no actor but `i` changes no other thread as far as
/// the queues care.
proof fn alone_is_only(h: Hall, n: Hall, i: int)
    requires
        h.alone(n, i),
    ensures
        only(h, n, i),
{
    assert forall|j: int|
        0 <= j < h.threads() && j != i && #[trigger] h.on_lock(j) implies n.on_lock(j) by {
        assert(n.actors[j] == h.actors[j]);
    }
    assert forall|j: int|
        0 <= j < h.threads() && j != i && #[trigger] h.on_seq(j) implies n.on_seq(j) by {
        assert(n.actors[j] == h.actors[j]);
    }
    assert forall|j: int|
        0 <= j < h.threads() && j != i && #[trigger] h.drives(j) implies n.drives(j) by {
        assert(n.actors[j] == h.actors[j]);
    }
}

proof fn test_inv(h: Hall, i: int)
    requires
        h.inv(),
        0 <= i < h.actors.len(),
        !h.blocked(i),
        h.actors[i].spot is Test,
    ensures
        h.test_step(i).inv(),
{
    reveal(Hall::inv);
    let n = h.test_step(i);
    assert(h.settled(i));
    alone_is_only(h, n, i);
    queues_still(h, n, i);
    herald_still(h, n, i);
    assert forall|j: int| 0 <= j < n.actors.len() implies #[trigger] n.settled(j) by {
        assert(h.settled(j));
    }
}

proof fn raise_inv(h: Hall, i: int)
    requires
        h.inv(),
        0 <= i < h.actors.len(),
        !h.blocked(i),
        h.actors[i].spot is Raise,
    ensures
        h.raise_step(i).inv(),
{
    reveal(Hall::inv);
    let n = h.raise_step(i);
    assert(h.settled(i));
    alone_is_only(h, n, i);
    queues_still(h, n, i);
    herald_still(h, n, i);
    assert forall|j: int| 0 <= j < n.actors.len() implies #[trigger] n.settled(j) by {
        assert(h.settled(j));
    }
}

proof fn lock_inv(h: Hall, i: int, at: Lock)
    requires
        h.inv(),
        0 <= i < h.actors.len(),
        !h.blocked(i),
        h.actors[i].spot == Spot::Locking(at),
    ensures
        h.lock_step(i, at).inv(),
{
    reveal(Hall::inv);
    let n = h.lock_step(i, at);
    assert(h.settled(i));
    alone_is_only(h, n, i);
    if at is Park && h.yard.word == 2 {
        queues_joined_lock(h, n, i);
    } else {
        queues_still(h, n, i);
        herald_still(h, n, i);
    }
    assert forall|j: int| 0 <= j < n.actors.len() implies #[trigger] n.settled(j) by {
        assert(h.settled(j));
    }
}

proof fn leave_inv(h: Hall, i: int, at: Unlock)
    requires
        h.inv(),
        0 <= i < h.actors.len(),
        !h.blocked(i),
        h.actors[i].spot == Spot::Leaving(at),
    ensures
        h.leave_step(i, at).inv(),
{
    reveal(Hall::inv);
    let n = h.leave_step(i, at);
    assert(h.settled(i));
    assert(h.settled(h.notifier()));
    alone_is_only(h, n, i);
    if at is Wake && h.yard.lock_q.len() > 0 {
        queues_woken_lock(h, n, i);
    } else {
        assert(n.yard.lock_q =~= h.yard.lock_q);
        queues_still(h, n, i);
        herald_still(h, n, i);
    }
    assert forall|j: int| 0 <= j < n.actors.len() implies #[trigger] n.settled(j) by {
        assert(h.settled(j));
    }
}

proof fn notify_inv(h: Hall, i: int, at: NotifyAll)
    requires
        h.inv(),
        0 <= i < h.actors.len(),
        !h.blocked(i),
        h.actors[i].spot == Spot::Notifying(at),
    ensures
        h.notify_step(i, at).inv(),
{
    reveal(Hall::inv);
    let n = h.notify_step(i, at);
    assert(h.settled(i));
    alone_is_only(h, n, i);
    if at is Move && h.yard.seq_q.len() > 0 {
        queue_is_short(h.yard.seq_q, h.actors.len() as int);
        let rest = h.yard.seq_q.skip(1);
        assert(woken(h.yard.seq_q, 1) == rest);
        assert(rest.take(rest.len() as int) =~= rest);
        assert(n.yard.seq_q =~= Seq::<int>::empty());
        assert(n.yard.lock_q =~= h.yard.lock_q + rest);
        queues_moved(h, n, i);
    } else {
        if at is Move {
            assert(n.yard.seq_q =~= h.yard.seq_q);
            assert(n.yard.lock_q =~= h.yard.lock_q);
        }
        queues_still(h, n, i);
        herald_still(h, n, i);
    }
    if at is Look && h.yard.cv.ptr == 0 {
        assert forall|j: int| 0 <= j < n.actors.len() implies !((#[trigger] n.actors[j]).spot
            is Waiting) by {
            assert(h.settled(j));
        }
        if h.yard.seq_q.len() > 0 {
            assert(h.on_seq(h.yard.seq_q[0]));
        }
    }
    assert forall|j: int| 0 <= j < n.actors.len() implies #[trigger] n.settled(j) by {
        assert(h.settled(j));
    }
}

proof fn wait_unlock_inv(h: Hall, i: int, at: Wait)
    requires
        h.inv(),
        0 <= i < h.actors.len(),
        !h.blocked(i),
        h.actors[i].spot == Spot::Waiting(at),
        at is Unlock,
    ensures
        h.wait_step(i, at).inv(),
{
    reveal(Hall::inv);
    let n = h.wait_step(i, at);
    let inner = at->Unlock_at;
    assert(h.settled(i));
    assert(h.settled(h.notifier()));
    alone_is_only(h, n, i);
    if inner is Wake && h.yard.lock_q.len() > 0 {
        queues_woken_lock(h, n, i);
    } else {
        assert(n.yard.lock_q =~= h.yard.lock_q);
        queues_still(h, n, i);
        herald_still(h, n, i);
    }
    assert forall|j: int| 0 <= j < n.actors.len() implies #[trigger] n.settled(j) by {
        assert(h.settled(j));
    }
}

proof fn wait_sleep_inv(h: Hall, i: int, at: Wait)
    requires
        h.inv(),
        0 <= i < h.actors.len(),
        !h.blocked(i),
        h.actors[i].spot == Spot::Waiting(at),
        at is Sleep || at is Park,
    ensures
        h.wait_step(i, at).inv(),
{
    reveal(Hall::inv);
    let n = h.wait_step(i, at);
    assert(h.settled(i));
    assert(h.settled(h.notifier()));
    alone_is_only(h, n, i);
    if at is Park && h.yard.word == 2 {
        queues_joined_lock(h, n, i);
    } else if at is Sleep && h.yard.cv.seq == 0 {
        queues_joined_seq(h, n, i);
    } else {
        queues_still(h, n, i);
        herald_still(h, n, i);
    }
    assert forall|j: int| 0 <= j < n.actors.len() implies #[trigger] n.settled(j) by {
        assert(h.settled(j));
    }
}

proof fn wait_rest_inv(h: Hall, i: int, at: Wait)
    requires
        h.inv(),
        0 <= i < h.actors.len(),
        !h.blocked(i),
        h.actors[i].spot == Spot::Waiting(at),
        !(at is Unlock),
        !(at is Sleep),
        !(at is Park),
    ensures
        h.wait_step(i, at).inv(),
{
    reveal(Hall::inv);
    let n = h.wait_step(i, at);
    assert(h.settled(i));
    assert(h.settled(h.notifier()));
    alone_is_only(h, n, i);
    queues_still(h, n, i);
    herald_still(h, n, i);
    assert forall|j: int| 0 <= j < n.actors.len() implies #[trigger] n.settled(j) by {
        assert(h.settled(j));
    }
}

proof fn act_inv(h: Hall, i: int)
    requires
        h.inv(),
    ensures
        h.act(i).inv(),
        h.act(i).actors.len() == h.actors.len(),
{
    reveal(Hall::act);
    if 0 <= i < h.actors.len() && !h.blocked(i) {
        match h.actors[i].spot {
            Spot::Locking(at) => lock_inv(h, i, at),
            Spot::Test => test_inv(h, i),
            Spot::Waiting(at) => {
                if at is Unlock {
                    wait_unlock_inv(h, i, at);
                } else if at is Sleep || at is Park {
                    wait_sleep_inv(h, i, at);
                } else {
                    wait_rest_inv(h, i, at);
                }
            },
            Spot::Raise => raise_inv(h, i),
            Spot::Leaving(at) => leave_inv(h, i, at),
            Spot::Notifying(at) => notify_inv(h, i, at),
            Spot::Finished => {},
        }
    }
}

proof fn stir_inv(h: Hall, i: int)
    requires
        h.inv(),
    ensures
        h.step(Event::Stir(i)).inv(),
{
    reveal(Hall::inv);
    let n = h.step(Event::Stir(i));
    queues_stirred(h, n, i);
    assert forall|j: int| 0 <= j < n.actors.len() implies #[trigger] n.settled(j) by {
        assert(h.settled(j));
    }
}

proof fn step_inv(h: Hall, e: Event)
    requires
        h.inv(),
    ensures
        h.step(e).inv(),
        h.step(e).actors.len() == h.actors.len(),
{
    match e {
        Event::Run(i) => act_inv(h, i),
        Event::Stir(i) => stir_inv(h, i),
    }
}

proof fn run_inv(h: Hall, schedule: Seq<Event>)
    requires
        h.inv(),
    ensures
        h.run(schedule).inv(),
        h.run(schedule).actors.len() == h.actors.len(),
    decreases schedule.len(),
{
    if schedule.len() > 0 {
        run_inv(h, schedule.drop_last());
        step_inv(h.run(schedule.drop_last()), schedule.last());
    }
}

/// Nobody is left behind. Let any number of threads wait for a flag, each by
/// "lock; while the flag is down, wait on the condition variable; unlock",
/// and let one thread raise the flag under the lock, unlock and call
/// `notify_all`. Let their steps interleave in any order, with a kernel that
/// blocks a thread when asked to, wakes whom it is asked to wake, the
/// longest-blocked first, and may let any thread go without being asked.
/// Then at every moment:
/// at most one thread stands between winning the lock and giving it back;
/// no waiter finds the condition variable bound to another mutex;
/// as long as a thread has not finished, some thread that has not finished
/// is free to take a step, so that no notification is ever lost and no
/// thread stranded; a waiter has found the flag raised at most once, and
/// once exactly when it has finished; and when all have finished, the lock
/// is free and nobody is blocked.
pub proof fn nobody_is_left_behind(waiters: usize, mutex: usize, schedule: Seq<Event>)
    requires
        mutex != 0,
        waiters < usize::MAX,
    ensures
        ({
            let end = Hall::init(waiters as nat, mutex).run(schedule);
            &&& end.actors.len() == waiters + 1
            &&& forall|i: int, j: int|
                0 <= i < end.actors.len() && 0 <= j < end.actors.len() && i != j ==> !((
                #[trigger] end.actors[i]).holds() && (#[trigger] end.actors[j]).holds())
            &&& forall|i: int|
                0 <= i < end.actors.len() ==> (#[trigger] end.actors[i]).spot != Spot::Waiting(
                    Wait::Foreign,
                )
            &&& end.stuck() ==> end.finished()
            &&& forall|i: int|
                0 <= i < waiters ==> (#[trigger] end.actors[i]).seen <= 1 && (end.actors[i].spot
                    is Finished ==> end.actors[i].seen == 1)
            &&& end.finished() ==> end.yard.word == 0 && end.yard.lock_q.len() == 0
                && end.yard.seq_q.len() == 0
        }),
{
    let start = Hall::init(waiters as nat, mutex);
    init_inv(waiters, mutex);
    run_inv(start, schedule);
    not_stuck(start.run(schedule));
}

/// What holds of a state that the program can reach, as far as the law
/// says.
proof fn not_stuck(end: Hall)
    requires
        end.inv(),
    ensures
        end.actors.len() >= 1,
        forall|i: int, j: int|
            0 <= i < end.actors.len() && 0 <= j < end.actors.len() && i != j ==> !((
            #[trigger] end.actors[i]).holds() && (#[trigger] end.actors[j]).holds()),
        forall|i: int|
            0 <= i < end.actors.len() ==> (#[trigger] end.actors[i]).spot != Spot::Waiting(
                Wait::Foreign,
            ),
        end.stuck() ==> end.finished(),
        forall|i: int|
            0 <= i < end.notifier() ==> (#[trigger] end.actors[i]).seen <= 1 && (
            end.actors[i].spot is Finished ==> end.actors[i].seen == 1),
        end.finished() ==> end.yard.word == 0 && end.yard.lock_q.len() == 0
            && end.yard.seq_q.len() == 0,
{
    reveal(Hall::inv);
    assert forall|i: int, j: int|
        0 <= i < end.actors.len() && 0 <= j < end.actors.len() && i != j implies !((
    #[trigger] end.actors[i]).holds() && (#[trigger] end.actors[j]).holds()) by {
        assert(end.settled(i));
        assert(end.settled(j));
    }
    assert forall|i: int| 0 <= i < end.notifier() implies (#[trigger] end.actors[i]).seen <= 1
        && (end.actors[i].spot is Finished ==> end.actors[i].seen == 1) by {
        assert(end.settled(i));
    }
    assert forall|i: int| 0 <= i < end.actors.len() implies (#[trigger] end.actors[i]).spot
        != Spot::Waiting(Wait::Foreign) by {
        assert(end.settled(i));
    }
    if end.yard.lock_q.len() > 0 {
        let t = end.yard.lock_q[0];
        assert(end.on_lock(end.yard.lock_q[0]));
        assert(end.yard.lock_q.contains(t));
        assert(end.blocked(t));
        assert(!end.finished());
        if end.stuck() {
            if end.yard.word == 2 {
                let o = end.yard.owner->0;
                assert(end.settled(o));
                assert(end.actors[o].holds());
                free_elsewhere(end, o);
            } else {
                let x = end.yard.herald->0;
                assert(end.actors[x].drives());
            }
        }
    } else if end.yard.seq_q.len() > 0 {
        let t = end.yard.seq_q[0];
        assert(end.on_seq(end.yard.seq_q[0]));
        assert(end.yard.seq_q.contains(t));
        assert(end.blocked(t));
        assert(!end.finished());
        if end.stuck() {
            let boss = end.notifier();
            assert(end.actors[boss].spot is Finished || end.blocked(boss));
            if end.yard.seq_q.contains(boss) {
                let q = end.yard.seq_q;
                let k = choose|k: int| 0 <= k < q.len() && q[k] == boss;
                assert(end.on_seq(end.yard.seq_q[k]));
            }
        }
    } else {
        if end.stuck() {
            assert forall|i: int| 0 <= i < end.actors.len() implies (
            #[trigger] end.actors[i]).spot is Finished by {
                assert(!end.yard.lock_q.contains(i));
                assert(!end.yard.seq_q.contains(i));
            }
        }
        if end.finished() && end.yard.word != 0 {
            let o = end.yard.owner->0;
            assert(end.settled(o));
        }
    }
}

impl Hall {
    /// A bound on the steps that the notifier has yet to take, if it finds
    /// the lock free whenever it looks.
    pub open spec fn errand(self) -> nat {
        let top = (3 * SPINS + 10) as nat;
        match self.actors[self.notifier()].spot {
            Spot::Notifying(NotifyAll::Move { .. }) => 1,
            Spot::Notifying(NotifyAll::Bump { .. }) => 2,
            Spot::Notifying(NotifyAll::Look) => 3,
            Spot::Leaving(at) => 4 + unlock_effort(at),
            Spot::Raise => top,
            Spot::Locking(at) => top + lock_effort(at),
            _ => 0,
        }
    }

    /// A bound on the steps that waiter `i` can take before the notifier
    /// takes one, if it finds the lock free whenever it looks. A waiter is
    /// down to little once it sleeps on the generation it read; one that
    /// read a generation that has moved on since has yet to find that out
    /// and to look at the flag again. The notifier counts for nothing here.
    pub open spec fn effort(self, i: int) -> nat {
        let top = (3 * SPINS + 10) as nat;
        if i == self.notifier() {
            0
        } else {
            match self.actors[i].spot {
                Spot::Leaving(at) => 1 + unlock_effort(at),
                Spot::Locking(at) => 2 * top + 7 + lock_effort(at),
                Spot::Test => 2 * top + 7,
                Spot::Waiting(at) => match at {
                    Wait::Read { .. } => 2 * top + 6,
                    Wait::Look { epoch, .. } => if epoch == self.yard.cv.seq {
                        2 * top + 5
                    } else {
                        3 * top + 13
                    },
                    Wait::Bind { epoch, .. } => if epoch == self.yard.cv.seq {
                        2 * top + 4
                    } else {
                        3 * top + 12
                    },
                    Wait::Unlock { epoch, at } => if epoch == self.yard.cv.seq {
                        top + 3 + unlock_effort(at)
                    } else {
                        2 * top + 11 + unlock_effort(at)
                    },
                    Wait::Sleep { epoch } => if epoch == self.yard.cv.seq {
                        top + 2
                    } else {
                        2 * top + 10
                    },
                    Wait::Retake => if self.yard.seq_q.contains(i) {
                        top + 1
                    } else {
                        2 * top + 8
                    },
                    Wait::Park => 2 * top + 9,
                    _ => 0,
                },
                _ => 0,
            }
        }
    }

    /// The effort of all waiters together.
    pub open spec fn efforts(self) -> nat {
        tally(|i: int| self.effort(i), self.actors.len())
    }

    /// Whether the program has got on from `self` to `n`: the notifier has
    /// got on with its errand, or else the effort that is left to the
    /// waiters has shrunk.
    pub open spec fn got_on(self, n: Hall) -> bool {
        n.errand() < self.errand() || (n.errand() == self.errand() && n.efforts()
            < self.efforts())
    }

    /// Whether it is for actor `i` to run: it is free to, and nobody else
    /// holds the lock.
    pub open spec fn turn_of(self, i: int) -> bool {
        &&& 0 <= i < self.actors.len()
        &&& !self.blocked(i)
        &&& self.yard.owner == Some(i) || self.yard.owner is None
    }

    /// Whom to run next so as to get on: the holder of the lock if there is
    /// one, and else any actor that has not finished and is free to run.
    pub open spec fn pick(self) -> int {
        match self.yard.owner {
            Some(o) => o,
            None => choose|i: int|
                0 <= i < self.actors.len() && !(self.actors[i].spot is Finished)
                    && !self.blocked(i),
        }
    }
}

/// As long as an actor has not finished, the one to run next exists: it has
/// not finished and it is free to run.
proof fn pick_is_free(s: Hall)
    requires
        s.inv(),
        !s.finished(),
    ensures
        s.turn_of(s.pick()),
        !(s.actors[s.pick()].spot is Finished),
{
    not_stuck(s);
    reveal(Hall::inv);
    match s.yard.owner {
        Some(o) => {
            assert(s.settled(o));
            free_elsewhere(s, o);
        },
        None => {},
    }
}

/// A step of actor `i` that changes nothing about the others, nor the
/// generation, nor who sleeps on it if not `i`, changes the effort of no
/// other.
proof fn efforts_differ_at(s: Hall, n: Hall, i: int)
    requires
        s.alone(n, i),
        n.yard.cv.seq == s.yard.cv.seq,
        forall|j: int| j != i ==> n.yard.seq_q.contains(j) == s.yard.seq_q.contains(j),
    ensures
        n.efforts() == s.efforts() - s.effort(i) + n.effort(i),
{
    assert forall|j: int| 0 <= j < s.actors.len() && j != i implies s.effort(j) == n.effort(
        j,
    ) by {
        assert(n.actors[j] == s.actors[j]);
    }
    tally_differs_at(|j: int| s.effort(j), |j: int| n.effort(j), s.actors.len(), i);
}

proof fn lock_gets_on(s: Hall, i: int, at: Lock)
    requires
        s.inv(),
        s.turn_of(i),
        s.actors[i].spot == Spot::Locking(at),
    ensures
        s.got_on(s.lock_step(i, at)),
{
    reveal(Hall::inv);
    let n = s.lock_step(i, at);
    assert(s.settled(i));
    lock_shrinks(at, SPINS);
    assert(n.yard.seq_q == s.yard.seq_q);
    efforts_differ_at(s, n, i);
}

proof fn test_gets_on(s: Hall, i: int)
    requires
        s.inv(),
        s.turn_of(i),
        s.actors[i].spot is Test || s.actors[i].spot is Raise,
    ensures
        s.actors[i].spot is Test ==> s.got_on(s.test_step(i)),
        s.actors[i].spot is Raise ==> s.got_on(s.raise_step(i)),
{
    reveal(Hall::inv);
    assert(s.settled(i));
    if s.actors[i].spot is Test {
        efforts_differ_at(s, s.test_step(i), i);
    }
}

proof fn leave_gets_on(s: Hall, i: int, at: Unlock)
    requires
        s.inv(),
        s.turn_of(i),
        s.actors[i].spot == Spot::Leaving(at),
    ensures
        s.got_on(s.leave_step(i, at)),
{
    reveal(Hall::inv);
    let n = s.leave_step(i, at);
    assert(s.settled(i));
    unlock_shrinks(s.yard.word, at, SPINS);
    assert(n.yard.seq_q == s.yard.seq_q);
    assert(n.yard.cv == s.yard.cv);
    efforts_differ_at(s, n, i);
}

proof fn notify_gets_on(s: Hall, i: int, at: NotifyAll)
    requires
        s.inv(),
        s.turn_of(i),
        s.actors[i].spot == Spot::Notifying(at),
    ensures
        s.got_on(s.notify_step(i, at)),
{
    reveal(Hall::inv);
    assert(s.settled(i));
}

proof fn wait_unlock_gets_on(s: Hall, i: int, at: Wait)
    requires
        s.inv(),
        s.turn_of(i),
        s.actors[i].spot == Spot::Waiting(at),
        at is Unlock,
    ensures
        s.got_on(s.wait_step(i, at)),
{
    reveal(Hall::inv);
    let n = s.wait_step(i, at);
    assert(s.settled(i));
    unlock_shrinks(s.yard.word, at->Unlock_at, SPINS);
    assert(n.yard.seq_q == s.yard.seq_q);
    assert(n.yard.cv == s.yard.cv);
    efforts_differ_at(s, n, i);
}

proof fn wait_gets_on(s: Hall, i: int, at: Wait)
    requires
        s.inv(),
        s.turn_of(i),
        s.actors[i].spot == Spot::Waiting(at),
        !(at is Unlock),
    ensures
        s.got_on(s.wait_step(i, at)),
{
    reveal(Hall::inv);
    let n = s.wait_step(i, at);
    assert(s.settled(i));
    if at is Sleep && s.yard.cv.seq == at->Sleep_epoch {
        assert(n.yard.seq_q == s.yard.seq_q.push(i));
        assert(n.yard.seq_q[s.yard.seq_q.len() as int] == i);
        assert forall|j: int| j != i implies n.yard.seq_q.contains(j) == s.yard.seq_q.contains(
            j,
        ) by {
            if s.yard.seq_q.contains(j) {
                let q = s.yard.seq_q;
                let k = choose|k: int| 0 <= k < q.len() && q[k] == j;
                assert(n.yard.seq_q[k] == j);
            }
        }
    } else {
        assert(n.yard.seq_q =~= s.yard.seq_q);
    }
    assert(n.yard.cv.seq == s.yard.cv.seq);
    efforts_differ_at(s, n, i);
}

/// The step of the actor to run next gets the program on.
proof fn pick_gets_on(s: Hall)
    requires
        s.inv(),
        !s.finished(),
    ensures
        s.got_on(s.act(s.pick())),
{
    pick_is_free(s);
    reveal(Hall::act);
    let i = s.pick();
    match s.actors[i].spot {
        Spot::Locking(at) => lock_gets_on(s, i, at),
        Spot::Test => test_gets_on(s, i),
        Spot::Raise => test_gets_on(s, i),
        Spot::Waiting(at) => {
            if at is Unlock {
                wait_unlock_gets_on(s, i, at);
            } else {
                wait_gets_on(s, i, at);
            }
        },
        Spot::Leaving(at) => leave_gets_on(s, i, at),
        Spot::Notifying(at) => notify_gets_on(s, i, at),
        Spot::Finished => {},
    }
}

/// A schedule that runs first `a` and then `b` ends where `b` ends when it
/// starts where `a` ends.
proof fn run_in_two(s: Hall, a: Seq<Event>, b: Seq<Event>)
    ensures
        s.run(a + b) == s.run(a).run(b),
    decreases b.len(),
{
    if b.len() == 0 {
        assert(a + b =~= a);
    } else {
        run_in_two(s, a, b.drop_last());
        assert((a + b).drop_last() =~= a + b.drop_last());
        assert((a + b).last() == b.last());
    }
}

/// From where the program stands, the actors can run to the end.
proof fn finish_from(s: Hall) -> (rest: Seq<Event>)
    requires
        s.inv(),
    ensures
        s.run(rest).finished(),
        forall|k: int| 0 <= k < rest.len() ==> #[trigger] rest[k] is Run,
    decreases s.errand(), s.efforts(),
{
    if s.finished() {
        Seq::empty()
    } else {
        let e = Event::Run(s.pick());
        pick_gets_on(s);
        step_inv(s, e);
        let later = finish_from(s.step(e));
        run_in_two(s, seq![e], later);
        assert(s.run(seq![e]) == s.step(e)) by {
            assert(seq![e].drop_last() =~= Seq::<Event>::empty());
            assert(s.run(Seq::<Event>::empty()) == s);
        }
        seq![e] + later
    }
}

/// Every waiter can get through. In the same program, from wherever it has
/// got to, the threads can run to the end, by steps of their own alone: the
/// kernel need not let anybody go without being asked, and the returned
/// schedule, made of such steps only, takes the program from there to
/// where the flag is raised and every waiter has found it so.
pub proof fn can_always_finish(waiters: usize, mutex: usize, schedule: Seq<Event>) -> (rest: Seq<
    Event,
>)
    requires
        mutex != 0,
        waiters < usize::MAX,
    ensures
        Hall::init(waiters as nat, mutex).run(schedule + rest).finished(),
        forall|k: int| 0 <= k < rest.len() ==> #[trigger] rest[k] is Run,
{
    let start = Hall::init(waiters as nat, mutex);
    init_inv(waiters, mutex);
    run_inv(start, schedule);
    let rest = finish_from(start.run(schedule));
    run_in_two(start, schedule, rest);
    rest
}

} // verus!
