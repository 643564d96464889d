use futex_sync::futex::{Action, Memord, Place, Rendezvous};
use futex_sync::kernel::{futex_stir, futex_wait, futex_wake, Queue};
use futex_sync::Barrier;

fn next(rng: &mut u64) -> usize {
    *rng = rng.wrapping_mul(6364136223846793005).wrapping_add(1442695040888963407);
    (*rng >> 33) as usize
}

/// Runs `threads` threads through `rounds` calls of `wait` on a barrier for
/// `total` threads, under a schedule drawn from `seed`. A thread that the
/// kernel has blocked is not scheduled; every now and then the kernel lets
/// one go without cause. Before each call a thread adds one
/// to a counter of arrivals, and after each call it checks that everybody
/// had arrived. Returns what each thread's calls returned.
fn meet(total: usize, threads: usize, rounds: usize, seed: u64) -> Vec<Vec<bool>> {
    let mut b = Barrier::new(total);
    let mut queue = Queue::new();
    let mut rng = seed;
    let mut at: Vec<Option<Rendezvous>> = vec![None; threads];
    let mut results: Vec<Vec<bool>> = vec![Vec::new(); threads];
    let mut before: usize = 0;
    loop {
        let ready: Vec<usize> = (0..threads)
            .filter(|&i| results[i].len() < rounds && !queue.holds(i))
            .collect();
        if ready.is_empty() {
            assert!(results.iter().all(|r| r.len() == rounds), "every thread is blocked");
            break;
        }
        if next(&mut rng) % 16 == 0 {
            futex_stir(&mut queue, next(&mut rng) % threads);
            continue;
        }
        let i = ready[next(&mut rng) % ready.len()];
        let here = match at[i] {
            None => {
                before += 1;
                b.enter()
            }
            Some(here) => here,
        };
        match here.action().unwrap() {
            Action::Wait { expected, .. } => {
                futex_wait(&mut queue, b.peek().seq, expected, i);
            }
            Action::Wake { count, .. } => {
                futex_wake(&mut queue, count);
            }
            _ => {}
        }
        let onward = b.wait(here);
        assert_ne!(onward, Rendezvous::Crowded);
        match onward.outcome() {
            Some(led) => {
                results[i].push(led);
                assert!(before >= results[i].len() * total, "left before all had arrived");
                at[i] = None;
            }
            None => at[i] = Some(onward),
        }
    }
    assert_eq!(b.peek().n_waiting, 0);
    assert!(queue.parked.is_empty());
    results
}

fn leaders_of(results: &[Vec<bool>], round: usize) -> usize {
    results.iter().filter(|r| r[round]).count()
}

#[test]
fn four_threads_one_round_one_true_three_false() {
    for seed in 0..50u64 {
        let results = meet(4, 4, 1, seed);
        let mut outcome: Vec<bool> = results.iter().map(|r| r[0]).collect();
        outcome.sort();
        assert_eq!(outcome, vec![false, false, false, true]);
    }
}

#[test]
fn every_round_has_one_leader() {
    for seed in 0..20u64 {
        for (total, rounds) in [(1usize, 5usize), (2, 7), (3, 4), (6, 9)] {
            let results = meet(total, total, rounds, seed);
            for round in 0..rounds {
                assert_eq!(leaders_of(&results, round), 1);
            }
        }
    }
}

#[test]
fn barrier_is_reusable_for_many_rounds() {
    let results = meet(5, 5, 200, 99);
    for round in 0..200 {
        assert_eq!(leaders_of(&results, round), 1);
    }
}

#[test]
fn new_barrier_has_nobody_waiting() {
    let b = Barrier::new(7);
    assert_eq!(b.peek().n_waiting, 0);
    assert_eq!(b.peek().n_total, 7);
    assert_eq!(b.peek().seq, 0);
    assert_eq!(b.enter(), Rendezvous::Read { total: 7 });
}

#[test]
fn a_barrier_for_one_lets_its_thread_through_as_leader() {
    let mut b = Barrier::new(1);
    let mut at = b.enter();
    let mut trace = Vec::new();
    while let Some(a) = at.action() {
        trace.push(a);
        at = b.wait(at);
    }
    assert_eq!(at, Rendezvous::Leader);
    assert_eq!(at.outcome(), Some(true));
    assert_eq!(
        trace,
        vec![
            Action::Load { place: Place::Epoch, order: Memord::Acquire },
            Action::FetchAdd { place: Place::Count, value: 1, order: Memord::Relaxed },
            Action::Store { place: Place::Count, value: 0, order: Memord::Relaxed },
            Action::FetchAdd { place: Place::Epoch, value: 1, order: Memord::Release },
            Action::Wake { place: Place::Epoch, count: usize::MAX },
        ]
    );
    assert_eq!(b.peek().seq, 1);
    assert_eq!(b.peek().n_waiting, 0);
}

#[test]
fn a_thread_that_is_not_last_waits_for_the_generation_to_move() {
    let mut b = futex_sync::futex::Barrier::new(2);
    b.seq = 41;
    let mut at = Rendezvous::start(2);
    at = b.wait(at);
    assert_eq!(at, Rendezvous::Arrive { total: 2, epoch: 41 });
    at = b.wait(at);
    assert_eq!(at, Rendezvous::Check { epoch: 41 });
    assert_eq!(b.n_waiting, 1);
    assert_eq!(at.action(), Some(Action::Load { place: Place::Epoch, order: Memord::Relaxed }));
    at = b.wait(at);
    assert_eq!(at, Rendezvous::Park { epoch: 41 });
    assert_eq!(at.action(), Some(Action::Wait { place: Place::Epoch, expected: 41 }));
    assert_eq!(at.outcome(), None);
    at = b.wait(at);
    assert_eq!(at, Rendezvous::Check { epoch: 41 });
    b.seq = 42;
    at = b.wait(at);
    assert_eq!(at, Rendezvous::Released);
    assert_eq!(at.outcome(), Some(false));
    assert_eq!(at.action(), None);
}

#[test]
fn one_thread_too_many_finds_the_barrier_crowded() {
    let mut b = futex_sync::futex::Barrier { n_waiting: 3, n_total: 3, seq: 0 };
    let mut at = Rendezvous::start(3);
    at = b.wait(at);
    at = b.wait(at);
    assert_eq!(at, Rendezvous::Crowded);
    assert_eq!(at.action(), None);
    assert_eq!(at.outcome(), None);
}

#[test]
fn a_barrier_for_nobody_is_crowded_by_its_first_thread() {
    let mut b = Barrier::new(0);
    let mut at = b.enter();
    at = b.wait(at);
    at = b.wait(at);
    assert_eq!(at, Rendezvous::Crowded);
}

#[test]
fn a_counter_at_its_limit_counts_as_crowded() {
    let mut b = futex_sync::futex::Barrier { n_waiting: usize::MAX, n_total: usize::MAX, seq: 0 };
    let at = b.wait(Rendezvous::Arrive { total: usize::MAX, epoch: 0 });
    assert_eq!(at, Rendezvous::Crowded);
    assert_eq!(b.n_waiting, 0);
}

#[test]
fn the_generation_wraps_around() {
    let mut b = futex_sync::futex::Barrier { n_waiting: 0, n_total: 1, seq: u32::MAX };
    let mut at = Rendezvous::start(1);
    while at.action().is_some() {
        at = b.wait(at);
    }
    assert_eq!(at, Rendezvous::Leader);
    assert_eq!(b.seq, 0);
}
