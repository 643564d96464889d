use futex_sync::futex::{Action, Lock, NotifyAll, NotifyOne, Place, Unlock, Wait, SPINS};
use futex_sync::kernel::{futex_reque, futex_stir, futex_wait, futex_wake, Queue};
use futex_sync::{CondVar, Guard, Mutex, Waiting};

/// The address that stands for the word of the one mutex of a world.
const ADDR: usize = 0x1000;

fn next(rng: &mut u64) -> usize {
    *rng = rng.wrapping_mul(6364136223846793005).wrapping_add(1442695040888963407);
    (*rng >> 33) as usize
}

/// A mutex, a condition variable for it, and the kernel's two queues.
struct World<T> {
    m: Mutex<T>,
    cv: CondVar,
    lock_q: Queue,
    seq_q: Queue,
}

impl<T> World<T> {
    fn new(x: T) -> World<T> {
        World { m: Mutex::new(x), cv: CondVar::new(), lock_q: Queue::new(), seq_q: Queue::new() }
    }

    /// What the kernel does for thread `who` when it meets `a`.
    fn serve(&mut self, a: Option<Action>, who: usize) {
        match a {
            Some(Action::Wait { place: Place::Mutex, expected }) => {
                futex_wait(&mut self.lock_q, self.m.peek(), expected, who);
            }
            Some(Action::Wait { place: Place::Epoch, expected }) => {
                futex_wait(&mut self.seq_q, self.cv.peek().seq, expected, who);
            }
            Some(Action::Wake { place: Place::Mutex, count }) => {
                futex_wake(&mut self.lock_q, count);
            }
            Some(Action::Wake { place: Place::Epoch, count }) => {
                futex_wake(&mut self.seq_q, count);
            }
            Some(Action::Requeue { wake, requeue, target, .. }) => {
                assert_eq!(target, ADDR);
                futex_reque(&mut self.seq_q, wake, requeue, &mut self.lock_q);
            }
            _ => {}
        }
    }

    fn blocked(&self, who: usize) -> bool {
        self.lock_q.holds(who) || self.seq_q.holds(who)
    }
}

/// What a thread does once it has left its critical section.
#[derive(Clone, Copy, PartialEq)]
enum Signal {
    Nothing,
    One,
    All,
}

/// What a thread decides inside its critical section.
enum Verdict {
    Wait,
    Leave(Signal),
}

enum Pc<T> {
    Idle,
    Lock(Lock),
    Held(Guard<T>),
    Wait(Waiting<T>),
    Release(Guard<T>, Signal),
    Unlock(Unlock, Signal),
    One(NotifyOne),
    All(NotifyAll),
    Done,
}

/// Runs `threads` threads under a schedule drawn from `seed`. Each runs
/// `rounds(i)` rounds of: lock; call `body` with the guarded value until it
/// says to leave, waiting on the condition variable whenever it says to
/// wait; unlock; signal as `body` asked. A thread that the kernel has
/// blocked is not scheduled, and it is an error if all that are left are
/// blocked; every now and then the kernel lets one go without cause.
/// Returns the guarded value.
fn run<T: Default>(
    start: T,
    threads: usize,
    rounds: &dyn Fn(usize) -> usize,
    body: &mut dyn FnMut(usize, usize, &mut T) -> Verdict,
    seed: u64,
) -> T {
    let mut w = World::new(start);
    let mut rng = seed;
    let mut pc: Vec<Pc<T>> = (0..threads).map(|_| Pc::Idle).collect();
    let mut round = vec![0usize; threads];
    let mut holders = 0usize;
    loop {
        let ready: Vec<usize> =
            (0..threads).filter(|&i| !matches!(pc[i], Pc::Done) && !w.blocked(i)).collect();
        if ready.is_empty() {
            assert!(pc.iter().all(|p| matches!(p, Pc::Done)), "every thread is blocked");
            break;
        }
        if next(&mut rng) % 16 == 0 {
            let who = next(&mut rng) % threads;
            futex_stir(&mut w.lock_q, who);
            futex_stir(&mut w.seq_q, who);
            continue;
        }
        let i = ready[next(&mut rng) % ready.len()];
        let here = std::mem::replace(&mut pc[i], Pc::Done);
        pc[i] = match here {
            Pc::Idle if round[i] < rounds(i) => Pc::Lock(w.m.enter()),
            Pc::Idle => Pc::Done,
            Pc::Lock(mut at) => {
                w.serve(at.action(), i);
                match w.m.lock(&mut at) {
                    Some(guard) => {
                        holders += 1;
                        assert_eq!(holders, 1);
                        Pc::Held(guard)
                    }
                    None => Pc::Lock(at),
                }
            }
            Pc::Held(mut guard) => match body(i, round[i], guard.deref_mut()) {
                Verdict::Wait => {
                    holders -= 1;
                    Pc::Wait(Waiting::start(guard, ADDR))
                }
                Verdict::Leave(signal) => Pc::Release(guard, signal),
            },
            Pc::Wait(Waiting::Back(guard)) => {
                holders += 1;
                assert_eq!(holders, 1);
                Pc::Held(guard)
            }
            Pc::Wait(at) => {
                assert!(!matches!(at, Waiting::Holding(_, Wait::Foreign)));
                w.serve(at.action(), i);
                Pc::Wait(w.cv.wait(&mut w.m, at))
            }
            Pc::Release(guard, signal) => {
                holders -= 1;
                Pc::Unlock(guard.release(&mut w.m), signal)
            }
            Pc::Unlock(Unlock::Done, signal) => {
                round[i] += 1;
                match signal {
                    Signal::Nothing => Pc::Idle,
                    Signal::One => Pc::One(NotifyOne::start()),
                    Signal::All => Pc::All(NotifyAll::start()),
                }
            }
            Pc::Unlock(at, signal) => {
                w.serve(at.action(), i);
                Pc::Unlock(w.m.unlock(at), signal)
            }
            Pc::One(NotifyOne::Done) => Pc::Idle,
            Pc::One(at) => {
                w.serve(at.action(), i);
                Pc::One(w.cv.notify_one(at))
            }
            Pc::All(NotifyAll::Done) => Pc::Idle,
            Pc::All(at) => {
                w.serve(at.action(), i);
                Pc::All(w.cv.notify_all(at))
            }
            Pc::Done => Pc::Done,
        };
    }
    assert!(w.lock_q.parked.is_empty());
    assert!(w.seq_q.parked.is_empty());
    assert_eq!(w.m.peek(), 0);
    match w.m.try_lock() {
        Some(mut guard) => std::mem::take(guard.deref_mut()),
        None => panic!("the mutex is still locked"),
    }
}

#[derive(Default)]
struct Slot {
    queue: Vec<u32>,
    taken: Vec<u32>,
}

#[derive(Default)]
struct Flag {
    raised: bool,
    seen_by: Vec<usize>,
}

#[test]
fn eight_threads_add_a_thousand_times_each() {
    let total = run(
        0u64,
        8,
        &|_| 1000,
        &mut |_, _, value: &mut u64| {
            *value += 1;
            Verdict::Leave(Signal::Nothing)
        },
        2024,
    );
    assert_eq!(total, 8000);
}

#[test]
fn increments_under_lock_are_never_lost() {
    for seed in 0..10u64 {
        for (threads, cycles) in [(2usize, 30usize), (3, 20), (6, 10)] {
            let total = run(
                0u64,
                threads,
                &|_| cycles,
                &mut |_, _, value: &mut u64| {
                    *value += 1;
                    Verdict::Leave(Signal::Nothing)
                },
                seed,
            );
            assert_eq!(total, (threads * cycles) as u64);
        }
    }
}

/// One producer, thread 0, puts `items` numbers into a queue with room for
/// one; one consumer, thread 1, takes them out. Each waits while it cannot
/// go on and signals when it has gone on.
fn produce_and_consume(items: usize, seed: u64) -> Vec<u32> {
    let end = run(
        Slot { queue: Vec::new(), taken: Vec::new() },
        2,
        &|_| items,
        &mut |who, round, slot: &mut Slot| {
            assert!(slot.queue.len() <= 1);
            if who == 0 {
                if slot.queue.len() == 1 {
                    Verdict::Wait
                } else {
                    slot.queue.push(round as u32);
                    Verdict::Leave(Signal::One)
                }
            } else if slot.queue.is_empty() {
                Verdict::Wait
            } else {
                let item = slot.queue.remove(0);
                slot.taken.push(item);
                Verdict::Leave(Signal::One)
            }
        },
        seed,
    );
    assert!(end.queue.is_empty());
    end.taken
}

#[test]
fn consumer_gets_every_item_of_ten_thousand() {
    let taken = produce_and_consume(10_000, 31337);
    assert_eq!(taken.len(), 10_000);
    for (k, item) in taken.iter().enumerate() {
        assert_eq!(*item, k as u32);
    }
}

#[test]
fn no_wakeup_is_lost_under_many_schedules() {
    for seed in 0..200u64 {
        let taken = produce_and_consume(25, seed);
        assert_eq!(taken, (0..25u32).collect::<Vec<u32>>());
    }
}

/// `waiters` threads wait for a flag; the last thread raises it and
/// notifies all.
fn broadcast(waiters: usize, seed: u64) -> Vec<usize> {
    let end = run(
        Flag { raised: false, seen_by: Vec::new() },
        waiters + 1,
        &|_| 1,
        &mut |who, _, flag: &mut Flag| {
            if who == waiters {
                flag.raised = true;
                Verdict::Leave(Signal::All)
            } else if flag.raised {
                flag.seen_by.push(who);
                Verdict::Leave(Signal::Nothing)
            } else {
                Verdict::Wait
            }
        },
        seed,
    );
    assert!(end.raised);
    end.seen_by
}

#[test]
fn notify_all_reaches_every_waiter_once() {
    for seed in 0..100u64 {
        for waiters in [2usize, 3, 5, 9] {
            let mut seen_by = broadcast(waiters, seed);
            seen_by.sort();
            assert_eq!(seen_by, (0..waiters).collect::<Vec<usize>>());
        }
    }
}

#[test]
fn notify_all_without_waiters_is_harmless() {
    assert_eq!(broadcast(0, 5), Vec::<usize>::new());
}

#[test]
fn new_mutex_is_free_and_holds_its_value() {
    let mut m = Mutex::new(17u64);
    assert_eq!(m.peek(), 0);
    let guard = m.try_lock().unwrap();
    assert_eq!(*guard.deref(), 17);
}

#[test]
fn try_lock_fails_while_a_guard_is_held_and_wins_after_its_release() {
    let mut m = Mutex::new(5u64);
    let mut guard = m.try_lock().expect("a free mutex");
    assert_eq!(m.peek(), 1);
    for _ in 0..3 {
        assert!(m.try_lock().is_none());
    }
    *guard.deref_mut() += 1;
    let mut at = guard.release(&mut m);
    assert_eq!(at, Unlock::Done);
    while at.action().is_some() {
        at = m.unlock(at);
    }
    let guard = m.try_lock().expect("a released mutex");
    assert_eq!(*guard.deref(), 6);
    assert!(m.try_lock().is_none());
}

#[test]
fn lock_hands_out_the_guard_with_the_step_that_wins() {
    let mut m = Mutex::new(1u64);
    let mut at = m.enter();
    assert_eq!(at, Lock::start(SPINS));
    assert_eq!(at, Lock::Spin { left: 256 });
    let guard = m.lock(&mut at).expect("a free mutex");
    assert_eq!(at, Lock::Held);
    assert_eq!(*guard.deref(), 1);
    let mut other = Lock::start(SPINS);
    assert!(m.lock(&mut other).is_none());
    assert_eq!(other, Lock::Relax { left: 255 });
    assert!(m.lock(&mut at).is_none());
    assert_eq!(at, Lock::Held);
}

#[test]
fn release_of_a_contended_lock_goes_on_to_wake() {
    let mut m = Mutex::new(0u64);
    let guard = m.try_lock().unwrap();
    let mut other = Lock::start(0);
    assert!(m.lock(&mut other).is_none());
    assert_eq!(other, Lock::Park);
    assert_eq!(m.peek(), 2);
    let at = guard.release(&mut m);
    assert_eq!(at, Unlock::Peek { left: SPINS });
    assert_eq!(m.peek(), 0);
}

#[test]
fn unlock_cannot_release_without_a_guard() {
    let mut m = Mutex::new(0u64);
    let _guard = m.try_lock().unwrap();
    let at = Unlock::start(SPINS);
    assert_eq!(m.unlock(at), at);
    assert_eq!(m.peek(), 1);
}

#[test]
fn wait_gives_up_the_lock_and_returns_with_a_guard() {
    let mut m = Mutex::new(3u64);
    let mut cv = CondVar::new();
    let guard = m.try_lock().unwrap();
    let mut at = Waiting::start(guard, ADDR);
    let mut trace = Vec::new();
    loop {
        match at.action() {
            Some(a) => trace.push(a),
            None => break,
        }
        at = cv.wait(&mut m, at);
        if matches!(at, Waiting::Parted(Wait::Sleep { .. })) {
            assert_eq!(m.peek(), 0);
            let other = m.try_lock().expect("the lock was given up");
            assert_eq!(*other.deref(), 3);
            other.release(&mut m);
        }
    }
    assert_eq!(trace.len(), 6);
    assert_eq!(cv.peek().ptr, ADDR);
    assert_eq!(m.peek(), 2);
    match at {
        Waiting::Back(guard) => assert_eq!(*guard.deref(), 3),
        _ => panic!("wait did not return"),
    }
}
