//! Mutual exclusion, shown on the program it is meant for: any number of
//! threads, each of which repeats "lock, read the counter, write it back
//! plus one, unlock", under every interleaving of their steps.
//!
//! The kernel is part of the picture. A thread that has blocked takes no
//! step until the kernel lets it go, which it does when asked to wake it,
//! and which it may do at any time without being asked.

use vstd::prelude::*;
use crate::futex::{Lock, Mutex, Unlock};
use crate::parking::{
    blocked,
    free_elsewhere,
    herald_still,
    heralded,
    only,
    queues_joined_lock,
    queues_stirred,
    queues_still,
    queues_woken_lock,
    lock_effort,
    lock_shrinks,
    lock_within,
    tidy,
    unlock_effort,
    unlock_shrinks,
    unlock_within,
    Event,
    Floor,
    Yard,
};

verus! {

/// Where a worker stands in its program.
pub enum Stage {
    /// Inside `lock`.
    Acquire(Lock),
    /// Holding the lock, about to read the counter.
    Fetch,
    /// Holding the lock, about to write `seen + 1` to the counter.
    Bump { seen: nat },
    /// Inside `unlock`.
    Release(Unlock),
    /// All cycles done.
    Finished,
}

/// One thread of the program.
pub struct Worker {
    pub stage: Stage,
    /// The increments it has written so far.
    pub done: nat,
}

/// The whole program at one moment. No condition variable is in play: that
/// part of the yard stays as it is.
pub struct Shop {
    pub yard: Yard,
    /// The counter that the mutex guards.
    pub counter: nat,
    pub workers: Seq<Worker>,
    /// How often each worker increments.
    pub cycles: nat,
    /// The spin budget of every `lock` and `unlock`.
    pub spins: usize,
}

impl Worker {
    /// Whether the worker is between winning the lock and giving it back.
    pub open spec fn holds(self) -> bool {
        match self.stage {
            Stage::Fetch => true,
            Stage::Bump { .. } => true,
            Stage::Release(Unlock::Release { .. }) => true,
            _ => false,
        }
    }

    /// Whether the worker is on its way to a step that wakes a thread
    /// blocked on the mutex or that marks its word contended.
    pub open spec fn drives(self) -> bool {
        match self.stage {
            Stage::Acquire(Lock::Mark) => true,
            Stage::Acquire(Lock::Remark) => true,
            Stage::Release(at) => at is Peek || at is Claim || at is Relax || at is Wake,
            _ => false,
        }
    }
}

impl Shop {
    /// Where a worker that has written `done` of `cycles` increments goes
    /// on.
    pub open spec fn onward(done: nat, cycles: nat, spins: usize) -> Stage {
        if done < cycles {
            Stage::Acquire(Lock::begun(spins))
        } else {
            Stage::Finished
        }
    }

    /// The program before any step: the lock free, the counter at zero.
    pub open spec fn init(threads: nat, cycles: nat, spins: usize) -> Shop {
        Shop {
            yard: Yard::init(0),
            counter: 0,
            workers: Seq::new(
                threads,
                |i: int| Worker { stage: Shop::onward(0, cycles, spins), done: 0 },
            ),
            cycles,
            spins,
        }
    }

    /// Whether the kernel has worker `i` blocked.
    pub open spec fn blocked(self, i: int) -> bool {
        self.yard.blocked(i)
    }

    /// The program with the shared state `yard` and worker `i` at `stage`.
    pub open spec fn moved(self, yard: Yard, i: int, stage: Stage) -> Shop {
        Shop { yard, workers: self.workers.update(i, Worker { stage, ..self.workers[i] }), ..self }
    }

    /// The program after worker `i`, at `at` inside `lock`, has taken a step.
    pub open spec fn acquire_step(self, i: int, at: Lock) -> Shop {
        let (yard, next) = self.yard.lock_step(i, at);
        if next != Lock::Held {
            self.moved(yard, i, Stage::Acquire(next))
        } else {
            self.moved(yard, i, Stage::Fetch)
        }
    }

    /// The program after worker `i` has read the counter.
    pub open spec fn fetch_step(self, i: int) -> Shop {
        self.moved(self.yard, i, Stage::Bump { seen: self.counter })
    }

    /// The program after worker `i` has written the counter.
    pub open spec fn bump_step(self, i: int, seen: nat) -> Shop {
        Shop {
            counter: seen + 1,
            workers: self.workers.update(
                i,
                Worker {
                    stage: Stage::Release(Unlock::begun(self.spins)),
                    done: self.workers[i].done + 1,
                },
            ),
            ..self
        }
    }

    /// The program after worker `i`, at `at` inside `unlock`, has taken a
    /// step.
    pub open spec fn release_step(self, i: int, at: Unlock) -> Shop {
        let (yard, next) = self.yard.unlock_step(i, at);
        if next != Unlock::Done {
            self.moved(yard, i, Stage::Release(next))
        } else {
            self.moved(yard, i, Shop::onward(self.workers[i].done, self.cycles, self.spins))
        }
    }

    /// The program after worker `i` has taken its next step. A blocked
    /// worker takes none, nor does one that has finished or that does not
    /// exist.
    #[verifier::opaque]
    pub open spec fn act(self, i: int) -> Shop {
        if 0 <= i < self.workers.len() && !self.blocked(i) {
            match self.workers[i].stage {
                Stage::Acquire(at) => self.acquire_step(i, at),
                Stage::Fetch => self.fetch_step(i),
                Stage::Bump { seen } => self.bump_step(i, seen),
                Stage::Release(at) => self.release_step(i, at),
                Stage::Finished => self,
            }
        } else {
            self
        }
    }

    /// The program after `e` has happened.
    pub open spec fn step(self, e: Event) -> Shop {
        match e {
            Event::Run(i) => self.act(i),
            Event::Stir(i) => Shop { yard: self.yard.stirred(i), ..self },
        }
    }

    /// The program after the events of `schedule` have happened, in that
    /// order.
    pub open spec fn run(self, schedule: Seq<Event>) -> Shop
        decreases schedule.len(),
    {
        if schedule.len() == 0 {
            self
        } else {
            self.run(schedule.drop_last()).step(schedule.last())
        }
    }

    /// Whether every worker has finished.
    pub open spec fn finished(self) -> bool {
        forall|i: int|
            0 <= i < self.workers.len() ==> (#[trigger] self.workers[i]).stage is Finished
    }

    /// Whether no worker can take a step: each has finished or is blocked.
    pub open spec fn stuck(self) -> bool {
        forall|i: int|
            0 <= i < self.workers.len() ==> (#[trigger] self.workers[i]).stage is Finished
                || self.blocked(i)
    }

    /// No two workers hold the lock.
    pub open spec fn exclusive(self) -> bool {
        forall|i: int, j: int|
            0 <= i < self.workers.len() && 0 <= j < self.workers.len() && i != j ==> !(
            (#[trigger] self.workers[i]).holds() && (#[trigger] self.workers[j]).holds())
    }
}

impl Floor for Shop {
    open spec fn yard(&self) -> Yard {
        self.yard
    }

    open spec fn threads(&self) -> int {
        self.workers.len() as int
    }

    open spec fn on_lock(&self, i: int) -> bool {
        self.workers[i].stage == Stage::Acquire(Lock::Remark)
    }

    open spec fn on_seq(&self, i: int) -> bool {
        false
    }

    open spec fn drives(&self, i: int) -> bool {
        self.workers[i].drives()
    }
}

impl Shop {
    /// What holds of worker `i` in every reachable state: it holds the lock
    /// exactly if the books say so, it has not overrun its cycles, what it
    /// read is still the counter, and its machines are in states that `lock`
    /// and `unlock` pass through.
    pub open spec fn settled(self, i: int) -> bool {
        let me = self.workers[i];
        &&& (self.yard.owner == Some(i)) == me.holds()
        &&& match me.stage {
            Stage::Acquire(at) => me.done < self.cycles && lock_within(at, self.spins),
            Stage::Fetch => me.done < self.cycles,
            Stage::Bump { seen } => me.done < self.cycles && seen == self.counter,
            Stage::Release(at) => 1 <= me.done <= self.cycles && unlock_within(at, self.spins),
            Stage::Finished => me.done == self.cycles,
        }
    }

    /// What holds in every state the program can reach.
    #[verifier::opaque]
    pub open spec fn inv(self) -> bool {
        &&& self.yard.sound()
        &&& self.yard.owner matches Some(o) ==> 0 <= o < self.workers.len()
        &&& self.counter == total(self.workers)
        &&& heralded(self)
        &&& tidy(self)
        &&& forall|i: int| 0 <= i < self.workers.len() ==> #[trigger] self.settled(i)
    }

    /// Whether the step to `n` changed no worker but `i`, which was free to
    /// run.
    pub open spec fn alone(self, n: Shop, i: int) -> bool {
        &&& 0 <= i < self.workers.len()
        &&& !self.blocked(i)
        &&& n.workers.len() == self.workers.len()
        &&& forall|j: int| 0 <= j < self.workers.len() && j != i ==> n.workers[j] == self.workers[j]
    }
}

/// The increments that the workers have written between them.
pub open spec fn total(workers: Seq<Worker>) -> nat
    decreases workers.len(),
{
    if workers.len() == 0 {
        0
    } else {
        total(workers.drop_last()) + workers.last().done
    }
}

proof fn total_after_update(workers: Seq<Worker>, i: int, w: Worker)
    requires
        0 <= i < workers.len(),
    ensures
        total(workers.update(i, w)) == total(workers) - workers[i].done + w.done,
    decreases workers.len(),
{
    let after = workers.update(i, w);
    if i == workers.len() - 1 {
        assert(after.drop_last() =~= workers.drop_last());
    } else {
        total_after_update(workers.drop_last(), i, w);
        assert(after.drop_last() =~= workers.drop_last().update(i, w));
    }
}

proof fn total_of_equals(workers: Seq<Worker>, each: nat)
    requires
        forall|i: int| 0 <= i < workers.len() ==> (#[trigger] workers[i]).done == each,
    ensures
        total(workers) == workers.len() * each,
    decreases workers.len(),
{
    if workers.len() > 0 {
        total_of_equals(workers.drop_last(), each);
        assert(workers.len() * each == (workers.len() - 1) * each + each) by (nonlinear_arith);
    }
}

proof fn init_inv(threads: nat, cycles: nat, spins: usize)
    ensures
        Shop::init(threads, cycles, spins).inv(),
{
    reveal(Shop::inv);
    let s = Shop::init(threads, cycles, spins);
    total_of_equals(s.workers, 0);
    assert forall|i: int| 0 <= i < s.workers.len() implies #[trigger] s.settled(i) by {}
}

/// A step that changes no worker but `i` changes no other thread as far as
/// the queues care.
proof fn alone_is_only(h: Shop, n: Shop, i: int)
    requires
        h.alone(n, i),
    ensures
        only(h, n, i),
{
    assert forall|j: int|
        0 <= j < h.threads() && j != i && #[trigger] h.on_lock(j) implies n.on_lock(j) by {
        assert(n.workers[j] == h.workers[j]);
    }
    assert forall|j: int|
        0 <= j < h.threads() && j != i && #[trigger] h.drives(j) implies n.drives(j) by {
        assert(n.workers[j] == h.workers[j]);
    }
}

proof fn acquire_inv(h: Shop, i: int, at: Lock)
    requires
        h.inv(),
        0 <= i < h.workers.len(),
        !h.blocked(i),
        h.workers[i].stage == Stage::Acquire(at),
    ensures
        h.acquire_step(i, at).inv(),
{
    reveal(Shop::inv);
    let n = h.acquire_step(i, at);
    assert(h.settled(i));
    alone_is_only(h, n, i);
    total_after_update(h.workers, i, n.workers[i]);
    if at is Park && h.yard.word == 2 {
        queues_joined_lock(h, n, i);
    } else {
        queues_still(h, n, i);
        herald_still(h, n, i);
    }
    assert forall|j: int| 0 <= j < n.workers.len() implies #[trigger] n.settled(j) by {
        assert(h.settled(j));
    }
}

proof fn critical_inv(h: Shop, i: int)
    requires
        h.inv(),
        0 <= i < h.workers.len(),
        !h.blocked(i),
        h.workers[i].stage is Fetch || h.workers[i].stage is Bump,
    ensures
        h.workers[i].stage is Fetch ==> h.fetch_step(i).inv(),
        h.workers[i].stage matches Stage::Bump { seen } ==> h.bump_step(i, seen).inv(),
{
    reveal(Shop::inv);
    let n = match h.workers[i].stage {
        Stage::Bump { seen } => h.bump_step(i, seen),
        _ => h.fetch_step(i),
    };
    assert(h.settled(i));
    alone_is_only(h, n, i);
    total_after_update(h.workers, i, n.workers[i]);
    queues_still(h, n, i);
    herald_still(h, n, i);
    assert forall|j: int| 0 <= j < n.workers.len() implies #[trigger] n.settled(j) by {
        assert(h.settled(j));
    }
}

proof fn release_inv(h: Shop, i: int, at: Unlock)
    requires
        h.inv(),
        0 <= i < h.workers.len(),
        !h.blocked(i),
        h.workers[i].stage == Stage::Release(at),
    ensures
        h.release_step(i, at).inv(),
{
    reveal(Shop::inv);
    let n = h.release_step(i, at);
    assert(h.settled(i));
    alone_is_only(h, n, i);
    total_after_update(h.workers, i, n.workers[i]);
    if at is Wake && h.yard.lock_q.len() > 0 {
        queues_woken_lock(h, n, i);
    } else {
        assert(n.yard.lock_q =~= h.yard.lock_q);
        queues_still(h, n, i);
        herald_still(h, n, i);
    }
    assert forall|j: int| 0 <= j < n.workers.len() implies #[trigger] n.settled(j) by {
        assert(h.settled(j));
    }
}

proof fn step_inv(h: Shop, e: Event)
    requires
        h.inv(),
    ensures
        h.step(e).inv(),
        h.step(e).workers.len() == h.workers.len(),
        h.step(e).cycles == h.cycles,
{
    reveal(Shop::act);
    match e {
        Event::Run(i) => {
            if 0 <= i < h.workers.len() && !h.blocked(i) {
                match h.workers[i].stage {
                    Stage::Acquire(at) => acquire_inv(h, i, at),
                    Stage::Fetch => critical_inv(h, i),
                    Stage::Bump { .. } => critical_inv(h, i),
                    Stage::Release(at) => release_inv(h, i, at),
                    Stage::Finished => {},
                }
            }
        },
        Event::Stir(i) => {
            reveal(Shop::inv);
            let n = h.step(e);
            queues_stirred(h, n, i);
            assert forall|j: int| 0 <= j < n.workers.len() implies #[trigger] n.settled(j) by {
                assert(h.settled(j));
            }
        },
    }
}

proof fn run_inv(s: Shop, schedule: Seq<Event>)
    requires
        s.inv(),
    ensures
        s.run(schedule).inv(),
        s.run(schedule).workers.len() == s.workers.len(),
        s.run(schedule).cycles == s.cycles,
    decreases schedule.len(),
{
    if schedule.len() > 0 {
        run_inv(s, schedule.drop_last());
        step_inv(s.run(schedule.drop_last()), schedule.last());
    }
}

/// Mutual exclusion. Let any number of threads each run `cycles` rounds of
/// "lock, read the counter, write it back plus one, unlock" on one mutex,
/// with any spin budget, zero included. Let their steps interleave in any
/// order, with a kernel that blocks a thread when asked to, wakes whom it is
/// asked to wake, and may let any thread go without being asked. Then at
/// every moment: at most one thread stands between winning the lock and
/// giving it back; no increment has been lost; as long as a thread has not
/// finished, some thread that has not finished is free to take a step, so
/// that no thread is left blocked on a lock that nobody holds; and once all
/// have finished, the counter is the number of threads times `cycles`, the
/// lock is free and nobody is blocked.
pub proof fn counter_is_exact(threads: nat, cycles: nat, spins: usize, schedule: Seq<Event>)
    ensures
        ({
            let end = Shop::init(threads, cycles, spins).run(schedule);
            &&& end.workers.len() == threads
            &&& end.exclusive()
            &&& end.counter == total(end.workers)
            &&& end.stuck() ==> end.finished()
            &&& end.finished() ==> end.counter == threads * cycles && end.yard.word == 0
                && end.yard.lock_q.len() == 0
        }),
{
    let start = Shop::init(threads, cycles, spins);
    init_inv(threads, cycles, spins);
    run_inv(start, schedule);
    let end = start.run(schedule);
    not_stuck(end);
    reveal(Shop::inv);
    assert forall|i: int, j: int|
        0 <= i < end.workers.len() && 0 <= j < end.workers.len() && i != j implies !((
    #[trigger] end.workers[i]).holds() && (#[trigger] end.workers[j]).holds()) by {
        assert(end.settled(i));
        assert(end.settled(j));
    }
    if end.finished() {
        assert forall|i: int| 0 <= i < end.workers.len() implies (#[trigger] end.workers[i]).done
            == cycles by {
            assert(end.settled(i));
        }
        total_of_equals(end.workers, cycles);
        if end.yard.word != 0 {
            let o = end.yard.owner->0;
            assert(end.settled(o));
        }
    }
}

impl Worker {
    /// How many increments the worker has yet to write.
    pub open spec fn owed(self, cycles: nat) -> nat {
        (cycles - self.done) as nat
    }

    /// A bound on the steps that the worker takes before it writes its next
    /// increment, or before it finishes, if it finds the lock free whenever
    /// it looks.
    pub open spec fn effort(self, spins: usize) -> nat {
        match self.stage {
            Stage::Finished => 0,
            Stage::Bump { .. } => 1,
            Stage::Fetch => 2,
            Stage::Acquire(at) => lock_effort(at),
            Stage::Release(at) => (2 * spins + 8) as nat + unlock_effort(at),
        }
    }
}

/// The increments that the workers have yet to write between them.
pub open spec fn owed(workers: Seq<Worker>, cycles: nat) -> nat
    decreases workers.len(),
{
    if workers.len() == 0 {
        0
    } else {
        owed(workers.drop_last(), cycles) + workers.last().owed(cycles)
    }
}

/// The effort of all workers together.
pub open spec fn effort(workers: Seq<Worker>, spins: usize) -> nat
    decreases workers.len(),
{
    if workers.len() == 0 {
        0
    } else {
        effort(workers.drop_last(), spins) + workers.last().effort(spins)
    }
}

proof fn sums_after_update(workers: Seq<Worker>, i: int, w: Worker, cycles: nat, spins: usize)
    requires
        0 <= i < workers.len(),
    ensures
        owed(workers.update(i, w), cycles) == owed(workers, cycles) - workers[i].owed(cycles)
            + w.owed(cycles),
        effort(workers.update(i, w), spins) == effort(workers, spins) - workers[i].effort(spins)
            + w.effort(spins),
    decreases workers.len(),
{
    let after = workers.update(i, w);
    if i == workers.len() - 1 {
        assert(after.drop_last() =~= workers.drop_last());
    } else {
        sums_after_update(workers.drop_last(), i, w, cycles, spins);
        assert(after.drop_last() =~= workers.drop_last().update(i, w));
    }
}

impl Shop {
    /// Whom to run next so as to get on: the holder of the lock if there is
    /// one, and else any worker that has not finished and is free to run.
    pub open spec fn pick(self) -> int {
        match self.yard.owner {
            Some(o) => o,
            None => choose|i: int|
                0 <= i < self.workers.len() && !(self.workers[i].stage is Finished)
                    && !self.blocked(i),
        }
    }
}

/// As long as a worker has not finished, the one to run next exists: it has
/// not finished and it is free to run.
proof fn pick_is_free(s: Shop)
    requires
        s.inv(),
        !s.finished(),
    ensures
        0 <= s.pick() < s.workers.len(),
        !(s.workers[s.pick()].stage is Finished),
        !s.blocked(s.pick()),
{
    reveal(Shop::inv);
    match s.yard.owner {
        Some(o) => {
            assert(s.settled(o));
            free_elsewhere(s, o);
        },
        None => {
            not_stuck(s);
        },
    }
}

/// As long as a worker has not finished, one that has not finished is free
/// to run.
proof fn not_stuck(s: Shop)
    requires
        s.inv(),
    ensures
        s.stuck() ==> s.finished(),
        s.finished() ==> s.yard.lock_q.len() == 0,
{
    reveal(Shop::inv);
    if s.yard.seq_q.len() > 0 {
        assert(s.on_seq(s.yard.seq_q[0]));
    }
    if s.yard.lock_q.len() > 0 {
        let t = s.yard.lock_q[0];
        assert(s.on_lock(s.yard.lock_q[0]));
        assert(s.yard.lock_q.contains(t));
        assert(s.blocked(t));
        assert(!s.finished());
        if s.stuck() {
            if s.yard.word == 2 {
                let o = s.yard.owner->0;
                assert(s.settled(o));
                assert(s.workers[o].holds());
                free_elsewhere(s, o);
            } else {
                let x = s.yard.herald->0;
                assert(s.workers[x].drives());
            }
        }
    } else {
        if s.stuck() {
            assert forall|i: int| 0 <= i < s.workers.len() implies (
            #[trigger] s.workers[i]).stage is Finished by {
                assert(!s.yard.lock_q.contains(i));
                assert(!s.yard.seq_q.contains(i));
            }
        }
    }
}

/// The step of the worker to run next gets the program on: an increment is
/// written, or else the effort that is left shrinks.
proof fn pick_gets_on(s: Shop)
    requires
        s.inv(),
        !s.finished(),
    ensures
        ({
            let n = s.act(s.pick());
            owed(n.workers, n.cycles) < owed(s.workers, s.cycles) || (owed(n.workers, n.cycles)
                == owed(s.workers, s.cycles) && effort(n.workers, n.spins) < effort(
                s.workers,
                s.spins,
            ))
        }),
{
    pick_is_free(s);
    reveal(Shop::inv);
    reveal(Shop::act);
    let i = s.pick();
    let n = s.act(i);
    assert(s.settled(i));
    match s.workers[i].stage {
        Stage::Acquire(at) => lock_shrinks(at, s.spins),
        Stage::Release(at) => unlock_shrinks(s.yard.word, at, s.spins),
        _ => {},
    }
    sums_after_update(s.workers, i, n.workers[i], s.cycles, s.spins);
    assert(n.workers =~= s.workers.update(i, n.workers[i]));
}

/// A schedule that runs first `a` and then `b` ends where `b` ends when it
/// starts where `a` ends.
proof fn run_in_two(s: Shop, a: Seq<Event>, b: Seq<Event>)
    ensures
        s.run(a + b) == s.run(a).run(b),
    decreases b.len(),
{
    if b.len() == 0 {
        assert(a + b =~= a);
    } else {
        run_in_two(s, a, b.drop_last());
        assert((a + b).drop_last() =~= a + b.drop_last());
        assert((a + b).last() == b.last());
    }
}

/// From where the program stands, the workers can run to the end.
proof fn finish_from(s: Shop) -> (rest: Seq<Event>)
    requires
        s.inv(),
    ensures
        s.run(rest).finished(),
        forall|k: int| 0 <= k < rest.len() ==> #[trigger] rest[k] is Run,
    decreases owed(s.workers, s.cycles), effort(s.workers, s.spins),
{
    if s.finished() {
        Seq::empty()
    } else {
        let e = Event::Run(s.pick());
        pick_gets_on(s);
        step_inv(s, e);
        let later = finish_from(s.step(e));
        run_in_two(s, seq![e], later);
        assert(s.run(seq![e]) == s.step(e)) by {
            assert(seq![e].drop_last() =~= Seq::<Event>::empty());
            assert(s.run(Seq::<Event>::empty()) == s);
        }
        seq![e] + later
    }
}

/// The lock never gets in the way for good. In the same program, from
/// wherever it has got to, the threads can run to the end, by steps of
/// their own alone: the kernel need not let anybody go without being asked,
/// and the returned schedule, made of such steps only, takes the program
/// from there to where all have finished.
pub proof fn can_always_finish(
    threads: nat,
    cycles: nat,
    spins: usize,
    schedule: Seq<Event>,
) -> (rest: Seq<Event>)
    ensures
        Shop::init(threads, cycles, spins).run(schedule + rest).finished(),
        forall|k: int| 0 <= k < rest.len() ==> #[trigger] rest[k] is Run,
{
    let start = Shop::init(threads, cycles, spins);
    init_inv(threads, cycles, spins);
    run_inv(start, schedule);
    let rest = finish_from(start.run(schedule));
    run_in_two(start, schedule, rest);
    rest
}

/// A single attempt is exclusive. On a mutex that is held, whether or not
/// anybody waits for it, `try_lock` fails and changes nothing, however often
/// it is tried; on a free one it wins and leaves the mutex held; and the
/// release, with any budget, leaves the mutex free, so that the attempt that
/// follows it wins.
pub proof fn try_lock_is_exclusive(word: u32, spins: usize)
    ensures
        word != 0 ==> Mutex::lock_step(word, Lock::Try) == (word, Lock::Busy),
        word == 0 ==> Mutex::lock_step(word, Lock::Try) == (1u32, Lock::Held),
        Mutex::unlock_step(word, Unlock::begun(spins)).0 == 0,
        Mutex::lock_step(Mutex::unlock_step(word, Unlock::begun(spins)).0, Lock::Try).1
            == Lock::Held,
{
}

/// A held mutex stays held until it is released. No step of `lock` or
/// `try_lock` by any thread, and no step of an `unlock` that is past its
/// release, makes a word that says locked say unlocked; and no step of
/// `lock` ends with the lock unless it found the word unlocked.
pub proof fn held_until_released(word: u32, locking: Lock, unlocking: Unlock)
    requires
        word != 0,
    ensures
        Mutex::lock_step(word, locking).0 != 0,
        !(locking is Held) ==> !(Mutex::lock_step(word, locking).1 is Held),
        !(unlocking is Release) ==> Mutex::unlock_step(word, unlocking).0 != 0,
{
}

} // verus!
