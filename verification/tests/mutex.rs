use futex_sync::futex::{Action, Lock, Memord, Mutex, Place, Unlock, SPINS};
use futex_sync::kernel::{futex_stir, futex_wait, futex_wake, Queue};

fn next(rng: &mut u64) -> usize {
    *rng = rng.wrapping_mul(6364136223846793005).wrapping_add(1442695040888963407);
    (*rng >> 33) as usize
}

/// What the kernel does for thread `who` when it meets `a` on the word of
/// the mutex.
fn serve(a: Action, who: usize, word: u32, queue: &mut Queue) {
    match a {
        Action::Wait { expected, .. } => {
            futex_wait(queue, word, expected, who);
        }
        Action::Wake { count, .. } => {
            futex_wake(queue, count);
        }
        _ => {}
    }
}

#[derive(Clone, Copy, Debug, PartialEq)]
enum Stage {
    Acquire(Lock),
    Fetch,
    Bump(u64),
    Release(Unlock),
    Finished,
}

/// Runs `threads` workers, each of which does `cycles` times "lock, read the
/// counter, write it back plus one, unlock", under a schedule drawn from
/// `seed`. A thread that the kernel has blocked is not scheduled; every now
/// and then the kernel lets one go without cause. Returns the counter at
/// the end.
fn count_under_lock(threads: usize, cycles: usize, spins: usize, seed: u64) -> u64 {
    let mut m = Mutex::new();
    let mut queue = Queue::new();
    let mut counter: u64 = 0;
    let mut rng = seed;
    let first = if cycles > 0 { Stage::Acquire(Lock::start(spins)) } else { Stage::Finished };
    let mut stage = vec![first; threads];
    let mut done = vec![0usize; threads];
    loop {
        let ready: Vec<usize> =
            (0..threads).filter(|&i| stage[i] != Stage::Finished && !queue.holds(i)).collect();
        if ready.is_empty() {
            assert!(stage.iter().all(|s| *s == Stage::Finished), "every thread is blocked");
            break;
        }
        if next(&mut rng) % 16 == 0 {
            futex_stir(&mut queue, next(&mut rng) % threads);
            continue;
        }
        let i = ready[next(&mut rng) % ready.len()];
        stage[i] = match stage[i] {
            Stage::Acquire(at) => {
                serve(at.action().unwrap(), i, m.word, &mut queue);
                match m.lock(at) {
                    Lock::Held => {
                        for j in 0..threads {
                            let inside = matches!(stage[j], Stage::Fetch | Stage::Bump(_))
                                || matches!(stage[j], Stage::Release(Unlock::Release { .. }));
                            assert!(!inside, "two threads hold the lock");
                        }
                        Stage::Fetch
                    }
                    at => Stage::Acquire(at),
                }
            }
            Stage::Fetch => Stage::Bump(counter),
            Stage::Bump(seen) => {
                counter = seen + 1;
                done[i] += 1;
                Stage::Release(Unlock::start(spins))
            }
            Stage::Release(at) => {
                serve(at.action().unwrap(), i, m.word, &mut queue);
                match m.unlock(at) {
                    Unlock::Done if done[i] < cycles => Stage::Acquire(Lock::start(spins)),
                    Unlock::Done => Stage::Finished,
                    at => Stage::Release(at),
                }
            }
            Stage::Finished => Stage::Finished,
        };
    }
    assert_eq!(m.word, 0);
    assert!(queue.parked.is_empty());
    counter
}

#[test]
fn counter_is_threads_times_cycles() {
    for seed in 0..20u64 {
        assert_eq!(count_under_lock(2, 50, 0, seed), 100);
        assert_eq!(count_under_lock(3, 40, 1, seed), 120);
        assert_eq!(count_under_lock(5, 20, 4, seed), 100);
    }
}

#[test]
fn counter_is_exact_without_any_spinning() {
    for seed in 100..140u64 {
        assert_eq!(count_under_lock(4, 25, 0, seed), 100);
    }
}

#[test]
fn counter_is_exact_with_the_standard_budget() {
    assert_eq!(count_under_lock(8, 100, SPINS, 7), 800);
}

#[test]
fn no_thread_means_no_increment() {
    assert_eq!(count_under_lock(0, 10, 3, 1), 0);
    assert_eq!(count_under_lock(3, 0, 3, 1), 0);
}

#[test]
fn new_mutex_is_unlocked() {
    assert_eq!(Mutex::new().word, 0);
}

#[test]
fn try_lock_takes_a_free_mutex() {
    let mut m = Mutex::new();
    assert!(m.try_lock());
    assert_eq!(m.word, 1);
}

#[test]
fn try_lock_fails_while_locked_and_wins_after_unlock() {
    let mut m = Mutex::new();
    assert!(m.try_lock());
    for _ in 0..5 {
        assert!(!m.try_lock());
        assert_eq!(m.word, 1);
    }
    assert_eq!(m.unlock(Unlock::start(0)), Unlock::Done);
    assert_eq!(m.word, 0);
    assert!(m.try_lock());
}

#[test]
fn try_lock_leaves_a_contended_word_alone() {
    let mut m = Mutex { word: 2 };
    assert!(!m.try_lock());
    assert_eq!(m.word, 2);
}

#[test]
fn lock_wins_at_once_on_a_free_mutex() {
    let mut m = Mutex::new();
    let at = Lock::start(3);
    assert_eq!(at, Lock::Spin { left: 3 });
    assert_eq!(
        at.action(),
        Some(Action::CompareAndSwap {
            place: Place::Mutex,
            current: 0,
            new: 1,
            order: Memord::Acquire
        })
    );
    assert_eq!(m.lock(at), Lock::Held);
    assert_eq!(m.word, 1);
    assert_eq!(Lock::Held.action(), None);
}

#[test]
fn lock_spins_as_often_as_its_budget_then_parks() {
    let mut m = Mutex { word: 1 };
    let mut at = Lock::start(2);
    let mut trace = Vec::new();
    for _ in 0..7 {
        trace.push(at.action().unwrap());
        at = m.lock(at);
    }
    let cas = Action::CompareAndSwap {
        place: Place::Mutex,
        current: 0,
        new: 1,
        order: Memord::Acquire,
    };
    assert_eq!(
        trace,
        vec![
            cas,
            Action::Relax,
            cas,
            Action::Relax,
            Action::Swap { place: Place::Mutex, value: 2, order: Memord::AcqRel },
            Action::Wait { place: Place::Mutex, expected: 2 },
            Action::Swap { place: Place::Mutex, value: 2, order: Memord::Release },
        ]
    );
    assert_eq!(at, Lock::Park);
    assert_eq!(m.word, 2);
}

#[test]
fn lock_without_budget_goes_straight_to_the_swap() {
    let mut m = Mutex::new();
    let at = Lock::start(0);
    assert_eq!(at, Lock::Mark);
    assert_eq!(m.lock(at), Lock::Held);
    assert_eq!(m.word, 2);
}

#[test]
fn lock_wins_after_a_wake_and_leaves_the_word_contended() {
    let mut m = Mutex { word: 2 };
    let mut at = Lock::Park;
    at = m.lock(at);
    assert_eq!(at, Lock::Remark);
    m.word = 0;
    at = m.lock(at);
    assert_eq!(at, Lock::Held);
    assert_eq!(m.word, 2);
}

#[test]
fn unlock_of_an_uncontended_lock_is_one_swap() {
    let mut m = Mutex { word: 1 };
    let at = Unlock::start(9);
    assert_eq!(
        at.action(),
        Some(Action::Swap { place: Place::Mutex, value: 0, order: Memord::Release })
    );
    assert_eq!(m.unlock(at), Unlock::Done);
    assert_eq!(m.word, 0);
    assert_eq!(Unlock::Done.action(), None);
}

#[test]
fn unlock_of_a_contended_lock_wakes_one_thread_when_nobody_takes_over() {
    let mut m = Mutex { word: 2 };
    let mut at = Unlock::start(2);
    let mut trace = Vec::new();
    while let Some(a) = at.action() {
        trace.push(a);
        at = m.unlock(at);
    }
    let load = Action::Load { place: Place::Mutex, order: Memord::Acquire };
    assert_eq!(
        trace,
        vec![
            Action::Swap { place: Place::Mutex, value: 0, order: Memord::Release },
            load,
            Action::Relax,
            load,
            Action::Relax,
            Action::Wake { place: Place::Mutex, count: 1 },
        ]
    );
    assert_eq!(m.word, 0);
}

#[test]
fn unlock_without_budget_wakes_at_once() {
    let mut m = Mutex { word: 2 };
    let at = m.unlock(Unlock::start(0));
    assert_eq!(at, Unlock::Wake);
    assert_eq!(m.unlock(at), Unlock::Done);
}

#[test]
fn unlock_leaves_the_wake_to_a_thread_that_took_the_lock() {
    let mut m = Mutex { word: 2 };
    let mut at = m.unlock(Unlock::start(5));
    assert_eq!(at, Unlock::Peek { left: 5 });
    assert!(m.try_lock());
    at = m.unlock(at);
    assert_eq!(at, Unlock::Claim { left: 5 });
    assert_eq!(
        at.action(),
        Some(Action::CompareAndSwap {
            place: Place::Mutex,
            current: 1,
            new: 2,
            order: Memord::AcqRel
        })
    );
    at = m.unlock(at);
    assert_eq!(at, Unlock::Done);
    assert_eq!(m.word, 2);
}

#[test]
fn unlock_keeps_looking_when_the_lock_is_free_again_before_it_can_mark_it() {
    let mut m = Mutex { word: 2 };
    let mut at = m.unlock(Unlock::start(3));
    m.word = 1;
    at = m.unlock(at);
    assert_eq!(at, Unlock::Claim { left: 3 });
    m.word = 0;
    at = m.unlock(at);
    assert_eq!(at, Unlock::Relax { left: 2 });
    at = m.unlock(at);
    assert_eq!(at, Unlock::Peek { left: 2 });
}
