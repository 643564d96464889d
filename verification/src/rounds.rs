//! The barrier, shown on the program it is meant for: as many threads as
//! the barrier is for, each of which calls `wait` a given number of times,
//! under every interleaving of their steps.
//!
//! The kernel is part of the picture. A thread that has blocked takes no
//! step until the kernel lets it go, which it does when asked to wake it,
//! and which it may do at any time without being asked.

use vstd::prelude::*;
use crate::futex::{Action, Barrier, Rendezvous};
use crate::kernel::{stirred, waited, woken};
use crate::parking::{
    free_elsewhere,
    heralded,
    only,
    queue_is_short,
    queues_joined_seq,
    queues_stirred,
    queues_still,
    tally,
    tally_differs_at,
    tidy,
    Event,
    Floor,
    Yard,
};

verus! {

/// Where a party stands in its program.
pub enum Stage {
    /// Inside `wait`.
    Waiting(Rendezvous),
    /// All rounds done.
    Finished,
}

/// One thread of the program.
pub struct Party {
    pub stage: Stage,
    /// How often it has counted itself in.
    pub arrived: nat,
    /// What its calls of `wait` have returned so far, in order.
    pub results: Seq<bool>,
}

/// The whole program at one moment.
pub struct Meet {
    pub barrier: Barrier,
    pub parties: Seq<Party>,
    /// How often each party calls `wait`.
    pub rounds: nat,
    /// How often the generation has moved on.
    pub passed: nat,
    /// The party whose arrival completed each round so far, in order.
    pub leaders: Seq<int>,
    /// The parties blocked on the generation, the longest-blocked first.
    pub parked: Seq<int>,
}

impl Meet {
    /// The program before any step.
    pub open spec fn init(total: usize, rounds: nat) -> Meet {
        Meet {
            barrier: Barrier { n_waiting: 0, n_total: total, seq: 0 },
            parties: Seq::new(
                total as nat,
                |i: int|
                    Party {
                        stage: if rounds > 0 {
                            Stage::Waiting(Rendezvous::begun(total))
                        } else {
                            Stage::Finished
                        },
                        arrived: 0,
                        results: Seq::empty(),
                    },
            ),
            rounds,
            passed: 0,
            leaders: Seq::empty(),
            parked: Seq::empty(),
        }
    }

    /// Where a party goes on once it is back from its `returned`-th call.
    pub open spec fn onward(self, returned: nat) -> Stage {
        if returned < self.rounds {
            Stage::Waiting(Rendezvous::begun(self.barrier.n_total))
        } else {
            Stage::Finished
        }
    }

    /// The queue after party `i` has performed `a`: the kernel blocks the
    /// party exactly if the generation is what the party expects, and wakes
    /// as many as it is asked to, if so many are blocked.
    pub open spec fn served(self, a: Action, i: int) -> Seq<int> {
        match a {
            Action::Wait { expected, .. } => waited(self.parked, self.barrier.seq, expected, i),
            Action::Wake { count, .. } => woken(self.parked, count),
            _ => self.parked,
        }
    }

    /// The program after party `i`, at `at` inside `wait`, has taken a step.
    /// What is noted besides: every arrival; who completed a round, when its
    /// arrival does; that the generation has moved on, when it does; and
    /// what `wait` returned, when it returns.
    pub open spec fn wait_step(self, i: int, at: Rendezvous) -> Meet {
        let p = self.parties[i];
        let (barrier, next) = self.barrier.wait_step(at);
        let parked = match at.pending() {
            Some(a) => self.served(a, i),
            None => self.parked,
        };
        let arrived = if at is Arrive {
            p.arrived + 1
        } else {
            p.arrived
        };
        let leaders = if at is Arrive && next is Reset {
            self.leaders.push(i)
        } else {
            self.leaders
        };
        let passed = if at is Advance {
            self.passed + 1
        } else {
            self.passed
        };
        let q = match next {
            Rendezvous::Released => Party {
                stage: self.onward(p.results.len() + 1),
                arrived,
                results: p.results.push(false),
            },
            Rendezvous::Leader => Party {
                stage: self.onward(p.results.len() + 1),
                arrived,
                results: p.results.push(true),
            },
            _ => Party { stage: Stage::Waiting(next), arrived, results: p.results },
        };
        Meet { barrier, parties: self.parties.update(i, q), passed, leaders, parked, ..self }
    }

    /// The program after party `i` has taken its next step. A blocked party
    /// takes none, nor does one that has finished or that does not exist.
    #[verifier::opaque]
    pub open spec fn act(self, i: int) -> Meet {
        if 0 <= i < self.parties.len() && !self.parked.contains(i) {
            match self.parties[i].stage {
                Stage::Waiting(at) => self.wait_step(i, at),
                Stage::Finished => self,
            }
        } else {
            self
        }
    }

    /// The program after `e` has happened.
    pub open spec fn step(self, e: Event) -> Meet {
        match e {
            Event::Run(i) => self.act(i),
            Event::Stir(i) => Meet { parked: stirred(self.parked, i), ..self },
        }
    }

    /// The program after the events of `schedule` have happened, in that
    /// order.
    pub open spec fn run(self, schedule: Seq<Event>) -> Meet
        decreases schedule.len(),
    {
        if schedule.len() == 0 {
            self
        } else {
            self.run(schedule.drop_last()).step(schedule.last())
        }
    }

    /// Whether every party has finished.
    pub open spec fn finished(self) -> bool {
        forall|i: int|
            0 <= i < self.parties.len() ==> (#[trigger] self.parties[i]).stage is Finished
    }

    /// Whether no party can take a step: each has finished or is blocked.
    pub open spec fn stuck(self) -> bool {
        forall|i: int|
            0 <= i < self.parties.len() ==> (#[trigger] self.parties[i]).stage is Finished
                || self.parked.contains(i)
    }

    /// Whether a round's leader is still on its way to moving the generation
    /// on.
    pub open spec fn leading(self) -> bool {
        self.leaders.len() == self.passed + 1
    }

    /// What holds of party `i` in every reachable state.
    pub open spec fn settled(self, i: int) -> bool {
        let p = self.parties[i];
        let a = p.arrived;
        let r = p.results.len();
        let g = self.passed;
        &&& g <= a <= g + 1
        &&& r <= g
        &&& forall|q: int| 0 <= q < r ==> #[trigger] p.results[q] == (self.leaders[q] == i)
        &&& forall|q: int|
            r <= q < self.leaders.len() && #[trigger] self.leaders[q] == i ==> q == r && (
            p.stage matches Stage::Waiting(at) && (at is Reset || at is Advance || at is Wake))
        &&& match p.stage {
            Stage::Waiting(Rendezvous::Read { total }) => total == self.barrier.n_total && a == r
                && r == g && r < self.rounds,
            Stage::Waiting(Rendezvous::Arrive { total, epoch }) => total == self.barrier.n_total
                && a == r && r == g && r < self.rounds && epoch == self.barrier.seq,
            Stage::Waiting(Rendezvous::Check { epoch }) | Stage::Waiting(
                Rendezvous::Park { epoch },
            ) => a == r + 1 && r < self.rounds && (a == g + 1 ==> epoch == self.barrier.seq) && (a
                == g ==> epoch != self.barrier.seq),
            Stage::Waiting(Rendezvous::Reset) | Stage::Waiting(Rendezvous::Advance) => a == r + 1
                && r == g && r < self.rounds && self.leading() && self.leaders[g as int] == i,
            Stage::Waiting(Rendezvous::Wake) => a == r + 1 && a == g && r < self.rounds
                && self.leaders[g - 1] == i,
            Stage::Waiting(_) => false,
            Stage::Finished => a == r && r == g && r == self.rounds,
        }
    }

    /// A party blocked on the generation waits for the round that is under
    /// way, or else the leader of the round before is about to wake it.
    pub open spec fn awaited(self, i: int) -> bool {
        let g = self.passed;
        self.parties[i].arrived == g + 1 || (g >= 1 && self.parties[self.leaders[g - 1]].stage
            == Stage::Waiting(Rendezvous::Wake))
    }

    /// What holds in every state the program can reach.
    #[verifier::opaque]
    pub open spec fn inv(self) -> bool {
        let g = self.passed;
        &&& self.parties.len() == self.barrier.n_total
        &&& tidy(self)
        &&& forall|k: int| 0 <= k < self.parked.len() ==> self.awaited(#[trigger] self.parked[k])
        &&& !self.leading() && self.parties.len() > 0 ==> self.barrier.n_waiting
            < self.barrier.n_total
        &&& self.leaders.len() == g || self.leading()
        &&& forall|q: int|
            0 <= q < self.leaders.len() ==> 0 <= #[trigger] self.leaders[q] < self.parties.len()
        &&& self.leading() ==> {
            &&& self.parties[self.leaders[g as int]].stage matches Stage::Waiting(at)
            &&& at is Reset || at is Advance
            &&& forall|j: int|
                0 <= j < self.parties.len() ==> (#[trigger] self.parties[j]).arrived == g + 1
        }
        &&& if self.leading() && self.parties[self.leaders[g as int]].stage == Stage::Waiting(
            Rendezvous::Advance,
        ) {
            self.barrier.n_waiting == 0
        } else {
            self.barrier.n_waiting == arrivals(self.parties, g + 1)
        }
        &&& forall|i: int| 0 <= i < self.parties.len() ==> #[trigger] self.settled(i)
    }
}

impl Floor for Meet {
    open spec fn yard(&self) -> Yard {
        Yard { seq_q: self.parked, ..Yard::init(0) }
    }

    open spec fn threads(&self) -> int {
        self.parties.len() as int
    }

    open spec fn on_lock(&self, i: int) -> bool {
        false
    }

    open spec fn on_seq(&self, i: int) -> bool {
        self.parties[i].stage matches Stage::Waiting(at) && at is Check
    }

    open spec fn drives(&self, i: int) -> bool {
        false
    }
}

/// How many parties have counted themselves in `round` times.
pub open spec fn arrivals(parties: Seq<Party>, round: nat) -> nat
    decreases parties.len(),
{
    if parties.len() == 0 {
        0
    } else {
        arrivals(parties.drop_last(), round) + if parties.last().arrived == round {
            1nat
        } else {
            0nat
        }
    }
}


proof fn arrivals_after_update(parties: Seq<Party>, i: int, p: Party, round: nat)
    requires
        0 <= i < parties.len(),
    ensures
        arrivals(parties.update(i, p), round) == arrivals(parties, round) - (if parties[i].arrived
            == round {
            1int
        } else {
            0int
        }) + (if p.arrived == round {
            1int
        } else {
            0int
        }),
    decreases parties.len(),
{
    let after = parties.update(i, p);
    if i == parties.len() - 1 {
        assert(after.drop_last() =~= parties.drop_last());
    } else {
        arrivals_after_update(parties.drop_last(), i, p, round);
        assert(after.drop_last() =~= parties.drop_last().update(i, p));
    }
}

proof fn arrivals_bounds(parties: Seq<Party>, round: nat)
    ensures
        arrivals(parties, round) <= parties.len(),
        arrivals(parties, round) == parties.len() <==> forall|j: int|
            0 <= j < parties.len() ==> (#[trigger] parties[j]).arrived == round,
        (forall|j: int| 0 <= j < parties.len() ==> (#[trigger] parties[j]).arrived != round)
            ==> arrivals(parties, round) == 0,
    decreases parties.len(),
{
    if parties.len() > 0 {
        let front = parties.drop_last();
        arrivals_bounds(front, round);
        if arrivals(parties, round) == parties.len() {
            assert forall|j: int| 0 <= j < parties.len() implies (#[trigger] parties[j]).arrived
                == round by {
                if j < front.len() {
                    assert(front[j] == parties[j]);
                }
            }
        }
        if forall|j: int| 0 <= j < parties.len() ==> (#[trigger] parties[j]).arrived == round {
            assert forall|j: int| 0 <= j < front.len() implies (#[trigger] front[j]).arrived
                == round by {
                assert(front[j] == parties[j]);
            }
        }
        if forall|j: int| 0 <= j < parties.len() ==> (#[trigger] parties[j]).arrived != round {
            assert forall|j: int| 0 <= j < front.len() implies (#[trigger] front[j]).arrived
                != round by {
                assert(front[j] == parties[j]);
            }
        }
    }
}

proof fn init_inv(total: usize, rounds: nat)
    ensures
        Meet::init(total, rounds).inv(),
{
    reveal(Meet::inv);
    let m = Meet::init(total, rounds);
    arrivals_bounds(m.parties, 1);
    assert forall|i: int| 0 <= i < m.parties.len() implies #[trigger] m.settled(i) by {}
}

/// A step of party `i` changes no other party as far as the queue cares.
proof fn alone_is_only(m: Meet, n: Meet, i: int)
    requires
        0 <= i < m.parties.len(),
        !m.parked.contains(i),
        n.parties.len() == m.parties.len(),
        forall|j: int| 0 <= j < m.parties.len() && j != i ==> n.parties[j] == m.parties[j],
    ensures
        only(m, n, i),
{
    assert forall|j: int|
        0 <= j < m.threads() && j != i && #[trigger] m.on_seq(j) implies n.on_seq(j) by {
        assert(n.parties[j] == m.parties[j]);
    }
}

proof fn wait_inv(m: Meet, i: int, at: Rendezvous)
    requires
        m.inv(),
        0 <= i < m.parties.len(),
        !m.parked.contains(i),
        m.parties[i].stage == Stage::Waiting(at),
    ensures
        m.wait_step(i, at).inv(),
{
    reveal(Meet::inv);
    let n = m.wait_step(i, at);
    let g = m.passed;
    assert(m.settled(i));
    arrivals_after_update(m.parties, i, n.parties[i], g + 1);
    arrivals_bounds(m.parties, g + 1);
    arrivals_bounds(n.parties, g + 1);
    arrivals_bounds(n.parties, g + 2);
    alone_is_only(m, n, i);
    assert(heralded(m));
    if at is Park && m.barrier.seq == at->Park_epoch {
        queues_joined_seq(m, n, i);
    } else if at is Wake {
        assert forall|k: int| 0 <= k < m.parked.len() implies 0 <= #[trigger] m.parked[k]
            < m.parties.len() by {
            assert(m.on_seq(m.parked[k]));
        }
        queue_is_short(m.parked, m.parties.len() as int);
        assert(n.parked =~= Seq::<int>::empty());
    } else {
        queues_still(m, n, i);
    }
    assert forall|j: int| 0 <= j < n.parties.len() implies #[trigger] n.settled(j) by {
        assert(m.settled(j));
    }
    assert forall|k: int| 0 <= k < n.parked.len() implies n.awaited(#[trigger] n.parked[k]) by {
        if k < m.parked.len() {
            assert(m.awaited(m.parked[k]));
            assert(m.on_seq(m.parked[k]));
            assert(m.parked.contains(m.parked[k]));
            assert(m.settled(m.parked[k]));
        }
    }
}

proof fn step_inv(m: Meet, e: Event)
    requires
        m.inv(),
    ensures
        m.step(e).inv(),
        m.step(e).parties.len() == m.parties.len(),
        m.step(e).rounds == m.rounds,
{
    reveal(Meet::act);
    match e {
        Event::Run(i) => {
            if 0 <= i < m.parties.len() && !m.parked.contains(i) {
                match m.parties[i].stage {
                    Stage::Waiting(at) => wait_inv(m, i, at),
                    Stage::Finished => {},
                }
            }
        },
        Event::Stir(i) => {
            reveal(Meet::inv);
            reveal(Seq::filter);
            let n = m.step(e);
            assert(stirred(Seq::<int>::empty(), i) =~= Seq::<int>::empty());
            assert(heralded(m));
            queues_stirred(m, n, i);
            assert forall|j: int| 0 <= j < n.parties.len() implies #[trigger] n.settled(j) by {
                assert(m.settled(j));
            }
            assert forall|k: int| 0 <= k < n.parked.len() implies n.awaited(
                #[trigger] n.parked[k],
            ) by {
                let x = n.parked[k];
                assert(n.parked.contains(x));
                let j = choose|j: int| 0 <= j < m.parked.len() && m.parked[j] == x;
                assert(m.awaited(m.parked[j]));
            }
        },
    }
}

proof fn run_inv(m: Meet, schedule: Seq<Event>)
    requires
        m.inv(),
    ensures
        m.run(schedule).inv(),
        m.run(schedule).parties.len() == m.parties.len(),
        m.run(schedule).rounds == m.rounds,
    decreases schedule.len(),
{
    if schedule.len() > 0 {
        run_inv(m, schedule.drop_last());
        step_inv(m.run(schedule.drop_last()), schedule.last());
    }
}

/// One leader per round, round after round. Let as many threads as a barrier
/// is for each call `wait` on it `rounds` times. Let their steps interleave
/// in any order, with a kernel that blocks a thread when asked to, wakes
/// whom it is asked to wake, and may let any thread go without being asked.
/// Then at every moment, each call that has returned was one of a round that
/// was completed, and it returned `true` to the party whose arrival
/// completed that round and `false` to every other; no party ever finds
/// more arrivals than the barrier is for; and once all have finished, every
/// party is back from `rounds` calls.
pub proof fn one_leader_per_round(total: usize, rounds: nat, schedule: Seq<Event>)
    ensures
        ({
            let end = Meet::init(total, rounds).run(schedule);
            &&& end.parties.len() == total
            &&& forall|q: int|
                0 <= q < end.leaders.len() ==> 0 <= #[trigger] end.leaders[q] < total
            &&& forall|i: int|
                0 <= i < total ==> (#[trigger] end.parties[i]).results.len() <= end.leaders.len()
            &&& forall|i: int, q: int|
                0 <= i < total && 0 <= q < end.parties[i].results.len()
                    ==> #[trigger] end.parties[i].results[q] == (end.leaders[q] == i)
            &&& forall|i: int|
                0 <= i < total ==> (#[trigger] end.parties[i]).stage != Stage::Waiting(
                    Rendezvous::Crowded,
                )
            &&& end.finished() ==> forall|i: int|
                0 <= i < total ==> (#[trigger] end.parties[i]).results.len() == rounds
        }),
{
    let start = Meet::init(total, rounds);
    init_inv(total, rounds);
    run_inv(start, schedule);
    let end = start.run(schedule);
    reveal(Meet::inv);
    assert forall|i: int| 0 <= i < total implies (#[trigger] end.parties[i]).results.len()
        <= end.leaders.len() by {
        assert(end.settled(i));
    }
    assert forall|i: int, q: int|
        0 <= i < total && 0 <= q < end.parties[i].results.len() implies (
    #[trigger] end.parties[i].results[q]) == (end.leaders[q] == i) by {
        assert(end.settled(i));
    }
    assert forall|i: int| 0 <= i < total implies (#[trigger] end.parties[i]).stage
        != Stage::Waiting(Rendezvous::Crowded) by {
        assert(end.settled(i));
    }
    if end.finished() {
        assert forall|i: int| 0 <= i < total implies (#[trigger] end.parties[i]).results.len()
            == rounds by {
            assert(end.settled(i));
        }
    }
}

/// In how many of `parties` the call of round `q` returned `true`.
pub open spec fn trues(parties: Seq<Party>, q: int) -> nat
    decreases parties.len(),
{
    if parties.len() == 0 {
        0
    } else {
        trues(parties.drop_last(), q) + if parties.last().results[q] {
            1nat
        } else {
            0nat
        }
    }
}

/// Where the call of round `q` returned `true` to party `l` and to no other,
/// it returned `true` once among the first `n` parties if `l` is one of
/// them, and not at all if not.
proof fn trues_of_one(parties: Seq<Party>, q: int, l: int, n: int)
    requires
        0 <= n <= parties.len(),
        forall|j: int| 0 <= j < parties.len() ==> (#[trigger] parties[j]).results[q] == (j == l),
    ensures
        trues(parties.take(n), q) == if 0 <= l < n {
            1nat
        } else {
            0nat
        },
    decreases n,
{
    if n > 0 {
        trues_of_one(parties, q, l, n - 1);
        assert(parties.take(n).drop_last() == parties.take(n - 1));
        assert(parties.take(n).last() == parties[n - 1]);
    }
}

/// Exactly one `true` per round. In the same program, once all parties have
/// finished, in each of the `rounds` rounds the call returned `true` to
/// exactly one party, and so `false` to all the others.
pub proof fn one_true_per_round(total: usize, rounds: nat, schedule: Seq<Event>, q: int)
    requires
        total >= 1,
        0 <= q < rounds,
        Meet::init(total, rounds).run(schedule).finished(),
    ensures
        trues(Meet::init(total, rounds).run(schedule).parties, q) == 1,
{
    let end = Meet::init(total, rounds).run(schedule);
    one_leader_per_round(total, rounds, schedule);
    assert(end.parties[0].results.len() == rounds);
    let l = end.leaders[q];
    assert forall|j: int| 0 <= j < end.parties.len() implies (#[trigger] end.parties[j]).results[q]
        == (j == l) by {
        assert(end.parties[j].results.len() == rounds);
        assert(end.parties[j].results[q] == (end.leaders[q] == j));
    }
    trues_of_one(end.parties, q, l, end.parties.len() as int);
    assert(end.parties.take(end.parties.len() as int) == end.parties);
}

/// Nobody leaves before everybody has arrived. In the same program, at
/// every moment: a party that is back from `k` calls of `wait` finds that
/// every party has counted itself in at least `k` times. So what a party
/// does before a call is done before any party gets past that round.
pub proof fn nobody_leaves_early(total: usize, rounds: nat, schedule: Seq<Event>)
    ensures
        ({
            let end = Meet::init(total, rounds).run(schedule);
            forall|i: int, j: int|
                0 <= i < end.parties.len() && 0 <= j < end.parties.len() ==> (
                #[trigger] end.parties[i]).results.len() <= (#[trigger] end.parties[j]).arrived
        }),
{
    let start = Meet::init(total, rounds);
    init_inv(total, rounds);
    run_inv(start, schedule);
    let end = start.run(schedule);
    reveal(Meet::inv);
    assert forall|i: int, j: int| 0 <= i < end.parties.len() && 0 <= j < end.parties.len() implies (
    #[trigger] end.parties[i]).results.len() <= (#[trigger] end.parties[j]).arrived by {
        assert(end.settled(i));
        assert(end.settled(j));
    }
}


/// Nobody waits in vain. In the same program, at every moment: as long as a
/// party has not finished, some party that has not finished is free to take
/// a step. So no party is left blocked on a generation that has moved on, or
/// that nobody is left to move on; and once all have finished, nobody is
/// blocked and nobody is counted as waiting.
pub proof fn nobody_waits_in_vain(total: usize, rounds: nat, schedule: Seq<Event>)
    ensures
        ({
            let end = Meet::init(total, rounds).run(schedule);
            &&& end.stuck() ==> end.finished()
            &&& end.finished() ==> end.parked.len() == 0 && end.barrier.n_waiting == 0
        }),
{
    let start = Meet::init(total, rounds);
    init_inv(total, rounds);
    run_inv(start, schedule);
    not_stuck(start.run(schedule));
}

impl Meet {
    /// How many generations have yet to pass.
    pub open spec fn ahead(self) -> nat {
        (self.rounds - self.passed) as nat
    }

    /// Whether party `i` has moved the generation on and has yet to wake
    /// the others: one if so, zero if not.
    pub open spec fn waking(self, i: int) -> nat {
        if self.parties[i].stage == Stage::Waiting(Rendezvous::Wake) {
            1
        } else {
            0
        }
    }

    /// A bound on the steps that party `i` can take before a generation
    /// passes or somebody is woken. A party that waits for the round under
    /// way is down to none once it is blocked; one that waits for a round
    /// that is over has yet to find that out.
    pub open spec fn effort(self, i: int) -> nat {
        let p = self.parties[i];
        let current = p.arrived == self.passed + 1;
        match p.stage {
            Stage::Waiting(Rendezvous::Park { .. }) => if current {
                5
            } else {
                10
            },
            Stage::Waiting(Rendezvous::Check { .. }) => if !current {
                9
            } else if self.parked.contains(i) {
                4
            } else {
                6
            },
            Stage::Waiting(Rendezvous::Read { .. }) => 8,
            Stage::Waiting(Rendezvous::Arrive { .. }) => 7,
            Stage::Waiting(Rendezvous::Reset) => 6,
            Stage::Waiting(Rendezvous::Advance) => 5,
            _ => 0,
        }
    }

    /// The parties that have yet to wake the others, counted.
    pub open spec fn wakers(self) -> nat {
        tally(|i: int| self.waking(i), self.parties.len())
    }

    /// The effort of all parties together.
    pub open spec fn efforts(self) -> nat {
        tally(|i: int| self.effort(i), self.parties.len())
    }

    /// Whom to run next so as to get on: any party that has not finished
    /// and is free to run.
    pub open spec fn pick(self) -> int {
        choose|i: int|
            0 <= i < self.parties.len() && !(self.parties[i].stage is Finished)
                && !self.parked.contains(i)
    }
}

/// As long as a party has not finished, one that has not finished is free to
/// run.
proof fn not_stuck(end: Meet)
    requires
        end.inv(),
    ensures
        end.stuck() ==> end.finished(),
        end.finished() ==> end.parked.len() == 0 && end.barrier.n_waiting == 0,
{
    reveal(Meet::inv);
    let g = end.passed;
    if end.parked.len() > 0 {
        let x = end.parked[0];
        assert(end.on_seq(end.parked[0]));
        assert(end.awaited(end.parked[0]));
        assert(end.parked.contains(x));
        assert(end.settled(x));
        assert(!end.finished());
        if end.stuck() {
            if end.parties[x].arrived == g + 1 {
                assert forall|j: int| 0 <= j < end.parties.len() implies (
                #[trigger] end.parties[j]).arrived == g + 1 by {
                    assert(end.settled(j));
                    assert(end.parked.contains(j));
                    let k = choose|k: int| 0 <= k < end.parked.len() && end.parked[k] == j;
                    assert(end.on_seq(end.parked[k]));
                    assert(end.awaited(end.parked[k]));
                    if end.parties[j].arrived != g + 1 {
                        free_elsewhere(end, end.leaders[g - 1]);
                    }
                }
                arrivals_bounds(end.parties, g + 1);
                if end.leading() {
                    free_elsewhere(end, end.leaders[g as int]);
                }
            } else {
                free_elsewhere(end, end.leaders[g - 1]);
            }
        }
    } else {
        if end.stuck() {
            assert forall|i: int| 0 <= i < end.parties.len() implies (
            #[trigger] end.parties[i]).stage is Finished by {
                assert(!end.parked.contains(i));
            }
        }
    }
    if end.finished() && end.parties.len() > 0 {
        assert(end.settled(0));
        assert forall|j: int| 0 <= j < end.parties.len() implies (
        #[trigger] end.parties[j]).arrived != g + 1 by {
            assert(end.settled(j));
        }
        arrivals_bounds(end.parties, g + 1);
    }
}

/// The step of the party to run next gets the program on: a generation
/// passes, or else somebody gets woken, or else the effort that is left
/// shrinks.
proof fn pick_gets_on(m: Meet)
    requires
        m.inv(),
        !m.finished(),
    ensures
        0 <= m.pick() < m.parties.len(),
        ({
            let n = m.act(m.pick());
            n.ahead() < m.ahead() || (n.ahead() == m.ahead() && (n.wakers() < m.wakers() || (
            n.wakers() == m.wakers() && n.efforts() < m.efforts())))
        }),
{
    not_stuck(m);
    reveal(Meet::inv);
    reveal(Meet::act);
    let i = m.pick();
    let n = m.act(i);
    let at = m.parties[i].stage->Waiting_0;
    assert(m.settled(i));
    tally_differs_at(|j: int| m.waking(j), |j: int| n.waking(j), m.parties.len(), i);
    if !(at is Advance) && !(at is Wake) {
        assert forall|j: int| 0 <= j < m.parties.len() && j != i implies m.effort(j) == n.effort(
            j,
        ) by {
            assert(n.parties[j] == m.parties[j]);
            if at is Park && m.barrier.seq == at->Park_epoch {
                assert(n.parked == m.parked.push(i));
                assert(n.parked.contains(j) == m.parked.contains(j)) by {
                    if m.parked.contains(j) {
                        let k = choose|k: int| 0 <= k < m.parked.len() && m.parked[k] == j;
                        assert(n.parked[k] == j);
                    }
                }
            }
        }
        if at is Park && m.barrier.seq == at->Park_epoch {
            assert(n.parked[m.parked.len() as int] == i);
        }
        tally_differs_at(|j: int| m.effort(j), |j: int| n.effort(j), m.parties.len(), i);
    }
}

/// A schedule that runs first `a` and then `b` ends where `b` ends when it
/// starts where `a` ends.
proof fn run_in_two(m: Meet, a: Seq<Event>, b: Seq<Event>)
    ensures
        m.run(a + b) == m.run(a).run(b),
    decreases b.len(),
{
    if b.len() == 0 {
        assert(a + b =~= a);
    } else {
        run_in_two(m, a, b.drop_last());
        assert((a + b).drop_last() =~= a + b.drop_last());
        assert((a + b).last() == b.last());
    }
}

/// From where the program stands, the parties can run to the end.
proof fn finish_from(m: Meet) -> (rest: Seq<Event>)
    requires
        m.inv(),
    ensures
        m.run(rest).finished(),
        forall|k: int| 0 <= k < rest.len() ==> #[trigger] rest[k] is Run,
    decreases m.ahead(), m.wakers(), m.efforts(),
{
    if m.finished() {
        Seq::empty()
    } else {
        let e = Event::Run(m.pick());
        pick_gets_on(m);
        step_inv(m, e);
        let later = finish_from(m.step(e));
        run_in_two(m, seq![e], later);
        assert(m.run(seq![e]) == m.step(e)) by {
            assert(seq![e].drop_last() =~= Seq::<Event>::empty());
            assert(m.run(Seq::<Event>::empty()) == m);
        }
        seq![e] + later
    }
}

/// Every round can be completed. In the same program, from wherever it has
/// got to, the parties can run to the end, by steps of their own alone: the
/// kernel need not let anybody go without being asked, and the returned
/// schedule, made of such steps only, takes the program from there to
/// where all have finished.
pub proof fn can_always_finish(total: usize, rounds: nat, schedule: Seq<Event>) -> (rest: Seq<
    Event,
>)
    ensures
        Meet::init(total, rounds).run(schedule + rest).finished(),
        forall|k: int| 0 <= k < rest.len() ==> #[trigger] rest[k] is Run,
{
    let start = Meet::init(total, rounds);
    init_inv(total, rounds);
    run_inv(start, schedule);
    let rest = finish_from(start.run(schedule));
    run_in_two(start, schedule, rest);
    rest
}

} // verus!
