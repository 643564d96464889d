//! No lost wakeup, shown on the program it is meant for: a producer that
//! puts items, one after the other, into a queue with room for one, and a
//! consumer that takes them out. Each waits on the same condition variable
//! while it cannot go on, and calls `notify_one` when it has gone on. Under
//! every interleaving of their steps.
//!
//! The kernel is part of the picture. A thread that has blocked takes no
//! step until the kernel lets it go, which it does when asked to wake it,
//! and which it may do at any time without being asked.

use vstd::prelude::*;
use crate::futex::{Lock, NotifyOne, Unlock, Wait, SPINS};
use crate::parking::{
    blocked,
    free_elsewhere,
    herald_still,
    heralded,
    only,
    queues_joined_lock,
    queues_joined_seq,
    queues_stirred,
    queues_still,
    queues_woken_lock,
    queues_woken_seq,
    lock_effort,
    lock_shrinks,
    lock_within,
    tidy,
    unlock_effort,
    unlock_shrinks,
    unlock_within,
    Event,
    Floor,
    Yard,
};

verus! {

/// Where an actor stands in its program.
pub enum Spot {
    /// Inside `lock`.
    Locking(Lock),
    /// Holding the lock, about to look at the queue.
    Test,
    /// Inside the condition variable's `wait`.
    Waiting(Wait),
    /// Inside `unlock`, having put or taken an item.
    Leaving(Unlock),
    /// Inside `notify_one`.
    Notifying(NotifyOne),
    /// Done.
    Finished,
}

/// One thread of the program.
pub struct Actor {
    pub spot: Spot,
    /// How many items it has put, or taken.
    pub moved: nat,
}

/// The whole program at one moment. Actor 0 is the producer, actor 1 the
/// consumer.
pub struct Belt {
    pub yard: Yard,
    /// Whether the queue holds its one item.
    pub full: bool,
    pub actors: Seq<Actor>,
    /// How many items are to be put and taken.
    pub items: nat,
}

impl Actor {
    /// Whether the actor is between winning the lock and giving it back.
    pub open spec fn holds(self) -> bool {
        match self.spot {
            Spot::Test => true,
            Spot::Waiting(Wait::Read { .. }) => true,
            Spot::Waiting(Wait::Look { .. }) => true,
            Spot::Waiting(Wait::Bind { .. }) => true,
            Spot::Waiting(Wait::Unlock { at: Unlock::Release { .. }, .. }) => true,
            Spot::Leaving(Unlock::Release { .. }) => true,
            _ => false,
        }
    }

    /// Whether the actor is on its way to a step that wakes a thread blocked
    /// on the mutex or that marks its word contended.
    pub open spec fn drives(self) -> bool {
        match self.spot {
            Spot::Locking(Lock::Mark) => true,
            Spot::Locking(Lock::Remark) => true,
            Spot::Waiting(Wait::Retake) => true,
            Spot::Waiting(Wait::Unlock { at, .. }) => at is Peek || at is Claim || at is Relax
                || at is Wake,
            Spot::Leaving(at) => at is Peek || at is Claim || at is Relax || at is Wake,
            _ => false,
        }
    }

    /// Whether the actor has put or taken an item and has yet to advance the
    /// generation for it.
    pub open spec fn owes(self) -> bool {
        self.spot is Leaving || self.spot == Spot::Notifying(NotifyOne::Bump)
    }
}

impl Belt {
    /// The program before any step.
    pub open spec fn init(items: nat, mutex: usize) -> Belt {
        Belt {
            yard: Yard::init(mutex),
            full: false,
            actors: Seq::new(2, |i: int| Actor { spot: Belt::fresh_round(0, items), moved: 0 }),
            items,
        }
    }

    /// Where an actor that has moved `moved` of `items` items goes on.
    pub open spec fn fresh_round(moved: nat, items: nat) -> Spot {
        if moved < items {
            Spot::Locking(Lock::begun(SPINS))
        } else {
            Spot::Finished
        }
    }

    /// Whether actor `i` finds the queue as it needs it: the producer empty,
    /// the consumer full.
    pub open spec fn can_go(self, i: int) -> bool {
        self.full == (i == 1)
    }

    /// Whether the kernel has actor `i` blocked.
    pub open spec fn blocked(self, i: int) -> bool {
        self.yard.blocked(i)
    }

    /// The program with the shared state `yard` and actor `i` at `spot`.
    pub open spec fn moved(self, yard: Yard, i: int, spot: Spot) -> Belt {
        Belt { yard, actors: self.actors.update(i, Actor { spot, ..self.actors[i] }), ..self }
    }

    /// The program after actor `i`, at `at` inside `lock`, has taken a step.
    pub open spec fn lock_step(self, i: int, at: Lock) -> Belt {
        let (yard, next) = self.yard.lock_step(i, at);
        if next != Lock::Held {
            self.moved(yard, i, Spot::Locking(next))
        } else {
            self.moved(yard, i, Spot::Test)
        }
    }

    /// The program after actor `i` has looked at the queue: if it can go
    /// on, it puts or takes its item and goes on to unlock; if not, it goes
    /// on to wait.
    pub open spec fn test_step(self, i: int) -> Belt {
        if self.can_go(i) {
            Belt {
                full: i == 0,
                actors: self.actors.update(
                    i,
                    Actor {
                        spot: Spot::Leaving(Unlock::begun(SPINS)),
                        moved: self.actors[i].moved + 1,
                    },
                ),
                ..self
            }
        } else {
            self.moved(self.yard, i, Spot::Waiting(Wait::begun(self.yard.mutex)))
        }
    }

    /// The program after actor `i`, at `at` inside `wait`, has taken a step.
    /// Back from `wait`, the actor looks at the queue again.
    pub open spec fn wait_step(self, i: int, at: Wait) -> Belt {
        let (yard, next) = self.yard.wait_step(i, at);
        if next == Wait::Woken {
            self.moved(yard, i, Spot::Test)
        } else {
            self.moved(yard, i, Spot::Waiting(next))
        }
    }

    /// The program after actor `i`, at `at` inside `unlock`, has taken a
    /// step. After `unlock` the actor notifies.
    pub open spec fn leave_step(self, i: int, at: Unlock) -> Belt {
        let (yard, next) = self.yard.unlock_step(i, at);
        if next != Unlock::Done {
            self.moved(yard, i, Spot::Leaving(next))
        } else {
            self.moved(yard, i, Spot::Notifying(NotifyOne::begun()))
        }
    }

    /// The program after actor `i`, at `at` inside `notify_one`, has taken a
    /// step. After it the actor turns to its next item, if there is one.
    pub open spec fn notify_step(self, i: int, at: NotifyOne) -> Belt {
        let (yard, next) = self.yard.notify_one_step(i, at);
        if next != NotifyOne::Done {
            self.moved(yard, i, Spot::Notifying(next))
        } else {
            self.moved(yard, i, Belt::fresh_round(self.actors[i].moved, self.items))
        }
    }

    /// The program after actor `i` has taken its next step. A blocked actor
    /// takes none, nor does one that has finished or that does not exist.
    #[verifier::opaque]
    pub open spec fn act(self, i: int) -> Belt {
        if 0 <= i < self.actors.len() && !self.blocked(i) {
            match self.actors[i].spot {
                Spot::Locking(at) => self.lock_step(i, at),
                Spot::Test => self.test_step(i),
                Spot::Waiting(at) => self.wait_step(i, at),
                Spot::Leaving(at) => self.leave_step(i, at),
                Spot::Notifying(at) => self.notify_step(i, at),
                Spot::Finished => self,
            }
        } else {
            self
        }
    }

    /// The program after `e` has happened.
    pub open spec fn step(self, e: Event) -> Belt {
        match e {
            Event::Run(i) => self.act(i),
            Event::Stir(i) => Belt { yard: self.yard.stirred(i), ..self },
        }
    }

    /// The program after the events of `schedule` have happened, in that
    /// order.
    pub open spec fn run(self, schedule: Seq<Event>) -> Belt
        decreases schedule.len(),
    {
        if schedule.len() == 0 {
            self
        } else {
            self.run(schedule.drop_last()).step(schedule.last())
        }
    }

    /// Whether both actors have finished.
    pub open spec fn finished(self) -> bool {
        forall|i: int| 0 <= i < self.actors.len() ==> (#[trigger] self.actors[i]).spot is Finished
    }

    /// Whether no actor can take a step: each has finished or is blocked.
    pub open spec fn stuck(self) -> bool {
        forall|i: int|
            0 <= i < self.actors.len() ==> (#[trigger] self.actors[i]).spot is Finished
                || self.blocked(i)
    }
}

impl Floor for Belt {
    open spec fn yard(&self) -> Yard {
        self.yard
    }

    open spec fn threads(&self) -> int {
        self.actors.len() as int
    }

    open spec fn on_lock(&self, i: int) -> bool {
        self.actors[i].spot == Spot::Locking(Lock::Remark) || self.actors[i].spot == Spot::Waiting(
            Wait::Retake,
        )
    }

    open spec fn on_seq(&self, i: int) -> bool {
        self.actors[i].spot == Spot::Waiting(Wait::Retake)
    }

    open spec fn drives(&self, i: int) -> bool {
        self.actors[i].drives()
    }
}

impl Belt {
    /// How the generation that actor `i` read, `epoch`, stands to the
    /// generation now. The other actor advances it once for every item it
    /// moves, and it moves at most one while `i` waits: so the generation
    /// is at most two ahead, and it is ahead whenever the other has moved
    /// its item and advanced the generation for it.
    pub open spec fn fresh(self, i: int, epoch: u32) -> bool {
        let now = self.yard.cv.seq;
        let one = epoch.wrapping_add(1);
        let two = one.wrapping_add(1);
        if self.can_go(i) {
            if self.actors[1 - i].owes() {
                now == epoch || now == one
            } else {
                now == one || now == two
            }
        } else {
            if self.actors[1 - i].owes() {
                now == epoch
            } else {
                now == epoch || now == one
            }
        }
    }

    /// What holds of actor `i` in every reachable state.
    pub open spec fn settled(self, i: int) -> bool {
        let me = self.actors[i];
        &&& (self.yard.owner == Some(i)) == me.holds()
        &&& match me.spot {
            Spot::Locking(at) => me.moved < self.items && lock_within(at, SPINS),
            Spot::Test => me.moved < self.items,
            Spot::Waiting(at) => me.moved < self.items && match at {
                Wait::Read { mutex } => mutex == self.yard.mutex && !self.can_go(i),
                Wait::Look { mutex, epoch } => mutex == self.yard.mutex && !self.can_go(i)
                    && self.fresh(i, epoch),
                Wait::Bind { mutex, epoch } => mutex == self.yard.mutex && !self.can_go(i)
                    && self.fresh(i, epoch),
                Wait::Unlock { epoch, at } => unlock_within(at, SPINS) && self.yard.cv.ptr
                    == self.yard.mutex && (at is Release ==> !self.can_go(i)) && self.fresh(
                    i,
                    epoch,
                ),
                Wait::Sleep { epoch } => self.yard.cv.ptr == self.yard.mutex && self.fresh(
                    i,
                    epoch,
                ),
                Wait::Retake => self.yard.cv.ptr == self.yard.mutex,
                Wait::Park => self.yard.cv.ptr == self.yard.mutex,
                Wait::Woken => false,
                Wait::Foreign => false,
            },
            Spot::Leaving(at) => unlock_within(at, SPINS) && 1 <= me.moved <= self.items,
            Spot::Notifying(at) => !(at is Done) && 1 <= me.moved <= self.items,
            Spot::Finished => me.moved == self.items,
        }
    }

    /// What holds of the shared state.
    pub open spec fn inv_words(self) -> bool {
        &&& self.actors.len() == 2
        &&& self.yard.sound()
        &&& self.yard.mutex != 0
        &&& self.yard.owner matches Some(o) ==> 0 <= o < 2
        &&& self.actors[0].moved == self.actors[1].moved + if self.full {
            1nat
        } else {
            0nat
        }
        &&& forall|k: int|
            0 <= k < self.yard.seq_q.len() ==> self.awaited(#[trigger] self.yard.seq_q[k])
    }

    /// A thread blocked on the generation that could go on if it were awake
    /// has a notification coming: the other has yet to advance the
    /// generation, or to wake.
    pub open spec fn awaited(self, i: int) -> bool {
        self.can_go(i) ==> self.actors[1 - i].spot is Leaving || self.actors[1 - i].spot
            is Notifying
    }

    /// What holds in every state the program can reach.
    #[verifier::opaque]
    pub open spec fn inv(self) -> bool {
        &&& self.inv_words()
        &&& heralded(self)
        &&& tidy(self)
        &&& forall|i: int| 0 <= i < self.actors.len() ==> #[trigger] self.settled(i)
    }

    /// Whether the step to `n` changed no actor but `i`, which was free to
    /// run.
    pub open spec fn alone(self, n: Belt, i: int) -> bool {
        &&& 0 <= i < self.actors.len()
        &&& !self.blocked(i)
        &&& n.actors.len() == self.actors.len()
        &&& forall|j: int| 0 <= j < self.actors.len() && j != i ==> n.actors[j] == self.actors[j]
    }
}

proof fn init_inv(items: nat, mutex: usize)
    requires
        mutex != 0,
    ensures
        Belt::init(items, mutex).inv(),
{
    reveal(Belt::inv);
    let h = Belt::init(items, mutex);
    assert forall|i: int| 0 <= i < h.actors.len() implies #[trigger] h.settled(i) by {}
}

/// A step that changes no actor but `i` changes no other thread as far as
/// the queues care.
proof fn alone_is_only(h: Belt, n: Belt, i: int)
    requires
        h.alone(n, i),
    ensures
        only(h, n, i),
{
    assert forall|j: int|
        0 <= j < h.threads() && j != i && #[trigger] h.on_lock(j) implies n.on_lock(j) by {
        assert(n.actors[j] == h.actors[j]);
    }
    assert forall|j: int|
        0 <= j < h.threads() && j != i && #[trigger] h.on_seq(j) implies n.on_seq(j) by {
        assert(n.actors[j] == h.actors[j]);
    }
    assert forall|j: int|
        0 <= j < h.threads() && j != i && #[trigger] h.drives(j) implies n.drives(j) by {
        assert(n.actors[j] == h.actors[j]);
    }
}

/// While one of the two is free to run, at most the other is blocked on the
/// generation.
proof fn one_sleeper(h: Belt, i: int)
    requires
        tidy(h),
        h.actors.len() == 2,
        0 <= i < 2,
        !h.blocked(i),
    ensures
        h.yard.seq_q.len() <= 1,
        h.yard.seq_q.len() == 1 ==> h.yard.seq_q[0] == 1 - i,
{
    if h.yard.seq_q.len() >= 1 {
        assert(h.yard.seq_q.contains(h.yard.seq_q[0]));
    }
    if h.yard.seq_q.len() >= 2 {
        assert(h.yard.seq_q.contains(h.yard.seq_q[1]));
        assert(h.yard.seq_q[0] != h.yard.seq_q[1]);
    }
}

proof fn test_inv(h: Belt, i: int)
    requires
        h.inv(),
        0 <= i < h.actors.len(),
        !h.blocked(i),
        h.actors[i].spot is Test,
    ensures
        h.test_step(i).inv(),
{
    reveal(Belt::inv);
    let n = h.test_step(i);
    assert(h.settled(i));
    assert(h.settled(1 - i));
    alone_is_only(h, n, i);
    queues_still(h, n, i);
    herald_still(h, n, i);
    one_sleeper(h, i);
    assert(n.settled(i));
    assert(n.settled(1 - i));
}

proof fn lock_inv(h: Belt, i: int, at: Lock)
    requires
        h.inv(),
        0 <= i < h.actors.len(),
        !h.blocked(i),
        h.actors[i].spot == Spot::Locking(at),
    ensures
        h.lock_step(i, at).inv(),
{
    reveal(Belt::inv);
    let n = h.lock_step(i, at);
    assert(h.settled(i));
    assert(h.settled(1 - i));
    alone_is_only(h, n, i);
    if at is Park && h.yard.word == 2 {
        queues_joined_lock(h, n, i);
    } else {
        queues_still(h, n, i);
        herald_still(h, n, i);
    }
    one_sleeper(h, i);
    assert(n.settled(i));
    assert(n.settled(1 - i));
}

proof fn leave_inv(h: Belt, i: int, at: Unlock)
    requires
        h.inv(),
        0 <= i < h.actors.len(),
        !h.blocked(i),
        h.actors[i].spot == Spot::Leaving(at),
    ensures
        h.leave_step(i, at).inv(),
{
    reveal(Belt::inv);
    let n = h.leave_step(i, at);
    assert(h.settled(i));
    assert(h.settled(1 - i));
    alone_is_only(h, n, i);
    if at is Wake && h.yard.lock_q.len() > 0 {
        queues_woken_lock(h, n, i);
    } else {
        assert(n.yard.lock_q =~= h.yard.lock_q);
        queues_still(h, n, i);
        herald_still(h, n, i);
    }
    one_sleeper(h, i);
    assert(n.settled(i));
    assert(n.settled(1 - i));
}

proof fn notify_inv(h: Belt, i: int, at: NotifyOne)
    requires
        h.inv(),
        0 <= i < h.actors.len(),
        !h.blocked(i),
        h.actors[i].spot == Spot::Notifying(at),
    ensures
        h.notify_step(i, at).inv(),
{
    reveal(Belt::inv);
    let n = h.notify_step(i, at);
    assert(h.settled(i));
    assert(h.settled(1 - i));
    alone_is_only(h, n, i);
    one_sleeper(h, i);
    if at is Wake && h.yard.seq_q.len() > 0 {
        assert(n.yard.seq_q =~= Seq::<int>::empty());
        queues_woken_seq(h, n, i);
        if n.yard.lock_q.len() > 0 && n.yard.word != 2 {
            let x = h.yard.herald->0;
            assert(!blocked(h, x));
            assert(!blocked(n, x));
        }
    } else {
        assert(n.yard.seq_q =~= h.yard.seq_q);
        queues_still(h, n, i);
        herald_still(h, n, i);
    }
    assert(n.settled(i));
    assert(n.settled(1 - i));
}

proof fn wait_unlock_inv(h: Belt, i: int, at: Wait)
    requires
        h.inv(),
        0 <= i < h.actors.len(),
        !h.blocked(i),
        h.actors[i].spot == Spot::Waiting(at),
        at is Unlock,
    ensures
        h.wait_step(i, at).inv(),
{
    reveal(Belt::inv);
    let n = h.wait_step(i, at);
    let inner = at->Unlock_at;
    assert(h.settled(i));
    assert(h.settled(1 - i));
    alone_is_only(h, n, i);
    if inner is Wake && h.yard.lock_q.len() > 0 {
        queues_woken_lock(h, n, i);
    } else {
        assert(n.yard.lock_q =~= h.yard.lock_q);
        queues_still(h, n, i);
        herald_still(h, n, i);
    }
    one_sleeper(h, i);
    assert(n.settled(i));
    assert(n.settled(1 - i));
}

proof fn wait_sleep_inv(h: Belt, i: int, at: Wait)
    requires
        h.inv(),
        0 <= i < h.actors.len(),
        !h.blocked(i),
        h.actors[i].spot == Spot::Waiting(at),
        at is Sleep || at is Park,
    ensures
        h.wait_step(i, at).inv(),
{
    reveal(Belt::inv);
    let n = h.wait_step(i, at);
    assert(h.settled(i));
    assert(h.settled(1 - i));
    alone_is_only(h, n, i);
    one_sleeper(h, i);
    if at is Park && h.yard.word == 2 {
        queues_joined_lock(h, n, i);
    } else if at is Sleep && h.yard.cv.seq == at->Sleep_epoch {
        queues_joined_seq(h, n, i);
    } else {
        queues_still(h, n, i);
        herald_still(h, n, i);
    }
    assert(n.settled(i));
    assert(n.settled(1 - i));
}

proof fn wait_rest_inv(h: Belt, i: int, at: Wait)
    requires
        h.inv(),
        0 <= i < h.actors.len(),
        !h.blocked(i),
        h.actors[i].spot == Spot::Waiting(at),
        !(at is Unlock),
        !(at is Sleep),
        !(at is Park),
    ensures
        h.wait_step(i, at).inv(),
{
    reveal(Belt::inv);
    let n = h.wait_step(i, at);
    assert(h.settled(i));
    assert(h.settled(1 - i));
    alone_is_only(h, n, i);
    queues_still(h, n, i);
    herald_still(h, n, i);
    one_sleeper(h, i);
    assert(n.settled(i));
    assert(n.settled(1 - i));
}

proof fn act_inv(h: Belt, i: int)
    requires
        h.inv(),
    ensures
        h.act(i).inv(),
        h.act(i).actors.len() == h.actors.len(),
        h.act(i).items == h.items,
{
    reveal(Belt::act);
    if 0 <= i < h.actors.len() && !h.blocked(i) {
        match h.actors[i].spot {
            Spot::Locking(at) => lock_inv(h, i, at),
            Spot::Test => test_inv(h, i),
            Spot::Waiting(at) => {
                if at is Unlock {
                    wait_unlock_inv(h, i, at);
                } else if at is Sleep || at is Park {
                    wait_sleep_inv(h, i, at);
                } else {
                    wait_rest_inv(h, i, at);
                }
            },
            Spot::Leaving(at) => leave_inv(h, i, at),
            Spot::Notifying(at) => notify_inv(h, i, at),
            Spot::Finished => {},
        }
    }
}

proof fn stir_inv(h: Belt, i: int)
    requires
        h.inv(),
    ensures
        h.step(Event::Stir(i)).inv(),
{
    reveal(Belt::inv);
    let n = h.step(Event::Stir(i));
    queues_stirred(h, n, i);
    assert forall|j: int| 0 <= j < n.actors.len() implies #[trigger] n.settled(j) by {
        assert(h.settled(j));
    }
    assert forall|k: int| 0 <= k < n.yard.seq_q.len() implies n.awaited(
        #[trigger] n.yard.seq_q[k],
    ) by {
        let x = n.yard.seq_q[k];
        assert(n.yard.seq_q.contains(x));
        let m = choose|m: int| 0 <= m < h.yard.seq_q.len() && h.yard.seq_q[m] == x;
        assert(h.awaited(h.yard.seq_q[m]));
    }
}

proof fn step_inv(h: Belt, e: Event)
    requires
        h.inv(),
    ensures
        h.step(e).inv(),
        h.step(e).actors.len() == h.actors.len(),
        h.step(e).items == h.items,
{
    match e {
        Event::Run(i) => act_inv(h, i),
        Event::Stir(i) => stir_inv(h, i),
    }
}

proof fn run_inv(h: Belt, schedule: Seq<Event>)
    requires
        h.inv(),
    ensures
        h.run(schedule).inv(),
        h.run(schedule).actors.len() == h.actors.len(),
        h.run(schedule).items == h.items,
    decreases schedule.len(),
{
    if schedule.len() > 0 {
        run_inv(h, schedule.drop_last());
        step_inv(h.run(schedule.drop_last()), schedule.last());
    }
}


/// No wakeup is lost. Let a producer put `items` items, one after the
/// other, into a queue with room for one: "lock; while the queue is full,
/// wait on the condition variable; put; unlock; notify_one". Let a consumer
/// take them out: "lock; while the queue is empty, wait on the same
/// condition variable; take; unlock; notify_one". Let their steps
/// interleave in any order, with a kernel that blocks a thread when asked
/// to, wakes whom it is asked to wake, and may let any thread go without
/// being asked. Then at every moment:
/// the two are never both between winning the lock and giving it back;
/// the queue holds no more than its one item, and nothing has been taken
/// that was not put; neither finds the condition variable bound to another
/// mutex; as long as one of the two has not finished, one that
/// has not finished is free to take a step, so that neither sleeps through
/// the notification it waits for; and when both have finished, all the
/// items have been put and taken, the queue is empty, the lock is free and
/// nobody is blocked.
pub proof fn no_wakeup_is_lost(items: nat, mutex: usize, schedule: Seq<Event>)
    requires
        mutex != 0,
    ensures
        ({
            let end = Belt::init(items, mutex).run(schedule);
            let put = end.actors[0].moved;
            let taken = end.actors[1].moved;
            &&& end.actors.len() == 2
            &&& !(end.actors[0].holds() && end.actors[1].holds())
            &&& taken <= put <= items
            &&& put == taken + if end.full {
                1nat
            } else {
                0nat
            }
            &&& end.actors[0].spot != Spot::Waiting(Wait::Foreign)
            &&& end.actors[1].spot != Spot::Waiting(Wait::Foreign)
            &&& end.stuck() ==> end.finished()
            &&& end.finished() ==> put == items && taken == items && !end.full && end.yard.word
                == 0 && end.yard.lock_q.len() == 0 && end.yard.seq_q.len() == 0
        }),
{
    let start = Belt::init(items, mutex);
    init_inv(items, mutex);
    run_inv(start, schedule);
    not_stuck(start.run(schedule));
}

/// What holds of a state that the program can reach, as far as the law
/// says.
proof fn not_stuck(end: Belt)
    requires
        end.inv(),
    ensures
        end.actors.len() == 2,
        !(end.actors[0].holds() && end.actors[1].holds()),
        end.actors[1].moved <= end.actors[0].moved <= end.items,
        end.actors[0].moved == end.actors[1].moved + if end.full {
            1nat
        } else {
            0nat
        },
        end.actors[0].spot != Spot::Waiting(Wait::Foreign),
        end.actors[1].spot != Spot::Waiting(Wait::Foreign),
        end.stuck() ==> end.finished(),
        end.finished() ==> end.actors[0].moved == end.items && end.actors[1].moved == end.items
            && !end.full && end.yard.word == 0 && end.yard.lock_q.len() == 0
            && end.yard.seq_q.len() == 0,
{
    reveal(Belt::inv);
    assert(end.settled(0));
    assert(end.settled(1));
    if end.yard.lock_q.len() > 0 {
        let t = end.yard.lock_q[0];
        assert(end.on_lock(end.yard.lock_q[0]));
        assert(end.yard.lock_q.contains(t));
        assert(end.blocked(t));
        assert(!end.finished());
        if end.stuck() {
            if end.yard.word == 2 {
                let o = end.yard.owner->0;
                assert(end.actors[o].holds());
                free_elsewhere(end, o);
            } else {
                let x = end.yard.herald->0;
                assert(end.actors[x].drives());
            }
        }
    } else if end.yard.seq_q.len() > 0 {
        let t = end.yard.seq_q[0];
        assert(end.on_seq(end.yard.seq_q[0]));
        assert(end.awaited(end.yard.seq_q[0]));
        assert(end.yard.seq_q.contains(t));
        assert(end.blocked(t));
        assert(!end.finished());
        if end.stuck() {
            let other = 1 - t;
            assert(end.actors[other].spot is Finished || end.blocked(other));
            if end.yard.seq_q.contains(other) {
                let q = end.yard.seq_q;
                let k = choose|k: int| 0 <= k < q.len() && q[k] == other;
                assert(end.on_seq(end.yard.seq_q[k]));
                assert(end.awaited(end.yard.seq_q[k]));
            }
        }
    } else {
        if end.stuck() {
            assert forall|i: int| 0 <= i < end.actors.len() implies (
            #[trigger] end.actors[i]).spot is Finished by {
                assert(!end.yard.lock_q.contains(i));
                assert(!end.yard.seq_q.contains(i));
            }
        }
    }
    if end.finished() {
        assert(end.actors[0].spot is Finished);
        assert(end.actors[1].spot is Finished);
    }
}

impl Belt {
    /// How many items have yet to be put, and to be taken.
    pub open spec fn owed(self) -> nat {
        ((self.items - self.actors[0].moved) + (self.items - self.actors[1].moved)) as nat
    }

    /// What actor `i` has yet to do by way of notifying for the item it has
    /// moved: to advance the generation and to wake, or to wake, or nothing.
    pub open spec fn pending(self, i: int) -> nat {
        match self.actors[i].spot {
            Spot::Leaving(_) => 2,
            Spot::Notifying(NotifyOne::Bump) => 2,
            Spot::Notifying(NotifyOne::Wake) => 1,
            _ => 0,
        }
    }

    /// A bound on the steps that actor `i` can take before an item is moved
    /// or a notification is made, if it finds the lock free whenever it
    /// looks. An actor that waits is down to one once it sleeps on the
    /// generation it read; one that read a generation that has moved on
    /// since has yet to find that out and to look at the queue again.
    pub open spec fn effort(self, i: int) -> nat {
        let top = (3 * SPINS + 10) as nat;
        match self.actors[i].spot {
            Spot::Finished => 0,
            Spot::Notifying(_) => 0,
            Spot::Leaving(at) => 1 + unlock_effort(at),
            Spot::Locking(at) => top + 7 + lock_effort(at),
            Spot::Test => top + 7,
            Spot::Waiting(at) => match at {
                Wait::Read { .. } => top + 6,
                Wait::Look { epoch, .. } => if epoch == self.yard.cv.seq {
                    top + 5
                } else {
                    2 * top + 13
                },
                Wait::Bind { epoch, .. } => if epoch == self.yard.cv.seq {
                    top + 4
                } else {
                    2 * top + 12
                },
                Wait::Unlock { epoch, at } => if epoch == self.yard.cv.seq {
                    3 + unlock_effort(at)
                } else {
                    top + 11 + unlock_effort(at)
                },
                Wait::Sleep { epoch } => if epoch == self.yard.cv.seq {
                    2
                } else {
                    top + 10
                },
                Wait::Retake => if self.yard.seq_q.contains(i) {
                    1
                } else {
                    top + 8
                },
                Wait::Park => top + 9,
                _ => 0,
            },
        }
    }

    /// Whom to run next so as to get on: the holder of the lock if there is
    /// one, and else any actor that has not finished and is free to run.
    pub open spec fn pick(self) -> int {
        match self.yard.owner {
            Some(o) => o,
            None => choose|i: int|
                0 <= i < self.actors.len() && !(self.actors[i].spot is Finished)
                    && !self.blocked(i),
        }
    }
}

/// As long as an actor has not finished, the one to run next exists: it has
/// not finished and it is free to run.
proof fn pick_is_free(s: Belt)
    requires
        s.inv(),
        !s.finished(),
    ensures
        s.actors.len() == 2,
        s.turn_of(s.pick()),
        !(s.actors[s.pick()].spot is Finished),
{
    not_stuck(s);
    reveal(Belt::inv);
    match s.yard.owner {
        Some(o) => {
            assert(s.settled(o));
            free_elsewhere(s, o);
        },
        None => {},
    }
}

impl Belt {
    /// Whether the program has got on from `self` to `n`: an item has been
    /// moved, or else a notification has got on, or else the effort that is
    /// left has shrunk.
    pub open spec fn got_on(self, n: Belt) -> bool {
        let before = self.pending(0) + self.pending(1);
        let after = n.pending(0) + n.pending(1);
        n.owed() < self.owed() || (n.owed() == self.owed() && (after < before || (after == before
            && n.effort(0) + n.effort(1) < self.effort(0) + self.effort(1))))
    }

    /// Whether it is for actor `i` to run: it is free to, and nobody else
    /// holds the lock.
    pub open spec fn turn_of(self, i: int) -> bool {
        &&& 0 <= i < 2
        &&& !self.blocked(i)
        &&& self.yard.owner == Some(i) || self.yard.owner is None
    }
}

proof fn lock_gets_on(s: Belt, i: int, at: Lock)
    requires
        s.inv(),
        s.turn_of(i),
        s.actors[i].spot == Spot::Locking(at),
    ensures
        s.got_on(s.lock_step(i, at)),
{
    reveal(Belt::inv);
    let n = s.lock_step(i, at);
    assert(s.settled(i));
    lock_shrinks(at, SPINS);
    assert(n.actors[1 - i] == s.actors[1 - i]);
    assert(n.yard.seq_q == s.yard.seq_q);
}

proof fn test_gets_on(s: Belt, i: int)
    requires
        s.inv(),
        s.turn_of(i),
        s.actors[i].spot is Test,
    ensures
        s.got_on(s.test_step(i)),
{
    reveal(Belt::inv);
    let n = s.test_step(i);
    assert(s.settled(i));
    assert(s.settled(1 - i));
    assert(n.actors[1 - i] == s.actors[1 - i]);
}

proof fn leave_gets_on(s: Belt, i: int, at: Unlock)
    requires
        s.inv(),
        s.turn_of(i),
        s.actors[i].spot == Spot::Leaving(at),
    ensures
        s.got_on(s.leave_step(i, at)),
{
    reveal(Belt::inv);
    let n = s.leave_step(i, at);
    assert(s.settled(i));
    unlock_shrinks(s.yard.word, at, SPINS);
    assert(n.actors[1 - i] == s.actors[1 - i]);
    assert(n.yard.seq_q == s.yard.seq_q);
    assert(n.yard.cv == s.yard.cv);
    assert(n.effort(1 - i) == s.effort(1 - i));
    assert(n.pending(1 - i) == s.pending(1 - i));
}

proof fn notify_gets_on(s: Belt, i: int, at: NotifyOne)
    requires
        s.inv(),
        s.turn_of(i),
        s.actors[i].spot == Spot::Notifying(at),
    ensures
        s.got_on(s.notify_step(i, at)),
{
    reveal(Belt::inv);
    let n = s.notify_step(i, at);
    assert(s.settled(i));
    assert(n.actors[1 - i] == s.actors[1 - i]);
}

proof fn wait_unlock_gets_on(s: Belt, i: int, at: Wait)
    requires
        s.inv(),
        s.turn_of(i),
        s.actors[i].spot == Spot::Waiting(at),
        at is Unlock,
    ensures
        s.got_on(s.wait_step(i, at)),
{
    reveal(Belt::inv);
    let n = s.wait_step(i, at);
    assert(s.settled(i));
    unlock_shrinks(s.yard.word, at->Unlock_at, SPINS);
    assert(n.actors[1 - i] == s.actors[1 - i]);
    assert(n.yard.seq_q == s.yard.seq_q);
    assert(n.yard.cv == s.yard.cv);
    assert(n.effort(1 - i) == s.effort(1 - i));
    assert(n.pending(1 - i) == s.pending(1 - i));
}

proof fn wait_gets_on(s: Belt, i: int, at: Wait)
    requires
        s.inv(),
        s.turn_of(i),
        s.actors[i].spot == Spot::Waiting(at),
        !(at is Unlock),
    ensures
        s.got_on(s.wait_step(i, at)),
{
    reveal(Belt::inv);
    let n = s.wait_step(i, at);
    assert(s.settled(i));
    assert(n.actors[1 - i] == s.actors[1 - i]);
    assert(n.pending(1 - i) == s.pending(1 - i));
    one_sleeper(s, i);
    if at is Sleep && s.yard.cv.seq == at->Sleep_epoch {
        assert(n.yard.seq_q == s.yard.seq_q.push(i));
        assert(n.yard.seq_q[s.yard.seq_q.len() as int] == i);
        assert(n.yard.seq_q.contains(1 - i) == s.yard.seq_q.contains(1 - i)) by {
            if s.yard.seq_q.contains(1 - i) {
                assert(n.yard.seq_q[0] == 1 - i);
            }
        }
    } else {
        assert(n.yard.seq_q =~= s.yard.seq_q);
    }
    assert(n.yard.cv.seq == s.yard.cv.seq);
    assert(n.effort(1 - i) == s.effort(1 - i));
}

/// The step of the actor to run next gets the program on.
proof fn pick_gets_on(s: Belt)
    requires
        s.inv(),
        !s.finished(),
    ensures
        s.got_on(s.act(s.pick())),
{
    pick_is_free(s);
    reveal(Belt::act);
    let i = s.pick();
    match s.actors[i].spot {
        Spot::Locking(at) => lock_gets_on(s, i, at),
        Spot::Test => test_gets_on(s, i),
        Spot::Waiting(at) => {
            if at is Unlock {
                wait_unlock_gets_on(s, i, at);
            } else {
                wait_gets_on(s, i, at);
            }
        },
        Spot::Leaving(at) => leave_gets_on(s, i, at),
        Spot::Notifying(at) => notify_gets_on(s, i, at),
        Spot::Finished => {},
    }
}

/// A schedule that runs first `a` and then `b` ends where `b` ends when it
/// starts where `a` ends.
proof fn run_in_two(s: Belt, a: Seq<Event>, b: Seq<Event>)
    ensures
        s.run(a + b) == s.run(a).run(b),
    decreases b.len(),
{
    if b.len() == 0 {
        assert(a + b =~= a);
    } else {
        run_in_two(s, a, b.drop_last());
        assert((a + b).drop_last() =~= a + b.drop_last());
        assert((a + b).last() == b.last());
    }
}

/// From where the program stands, the two can run to the end.
proof fn finish_from(s: Belt) -> (rest: Seq<Event>)
    requires
        s.inv(),
    ensures
        s.run(rest).finished(),
        forall|k: int| 0 <= k < rest.len() ==> #[trigger] rest[k] is Run,
    decreases s.owed(), s.pending(0) + s.pending(1), s.effort(0) + s.effort(1),
{
    if s.finished() {
        Seq::empty()
    } else {
        let e = Event::Run(s.pick());
        pick_gets_on(s);
        step_inv(s, e);
        let later = finish_from(s.step(e));
        run_in_two(s, seq![e], later);
        assert(s.run(seq![e]) == s.step(e)) by {
            assert(seq![e].drop_last() =~= Seq::<Event>::empty());
            assert(s.run(Seq::<Event>::empty()) == s);
        }
        seq![e] + later
    }
}

/// Every item can be delivered. In the same program, from wherever it has
/// got to, the two can run to the end, by steps of their own alone: the
/// kernel need not let anybody go without being asked, and the returned
/// schedule, made of such steps only, takes the program from there to
/// where all the items have been put and taken.
pub proof fn can_always_finish(items: nat, mutex: usize, schedule: Seq<Event>) -> (rest: Seq<
    Event,
>)
    requires
        mutex != 0,
    ensures
        Belt::init(items, mutex).run(schedule + rest).finished(),
        forall|k: int| 0 <= k < rest.len() ==> #[trigger] rest[k] is Run,
{
    let start = Belt::init(items, mutex);
    init_inv(items, mutex);
    run_inv(start, schedule);
    let rest = finish_from(start.run(schedule));
    run_in_two(start, schedule, rest);
    rest
}

} // verus!
