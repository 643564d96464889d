use futex_sync::futex::{
    Action, CondVar, Memord, Mutex, NotifyAll, NotifyOne, Place, Unlock, Wait, SPINS,
};

#[test]
fn new_condvar_is_bound_to_no_mutex() {
    let c = CondVar::new();
    assert_eq!(c.ptr, 0);
    assert_eq!(c.seq, 0);
}

#[test]
fn the_standard_budget_is_256() {
    assert_eq!(SPINS, 0x100);
}

#[test]
fn wait_reads_binds_unlocks_sleeps_and_retakes() {
    let mut c = CondVar { ptr: 0, seq: 9 };
    let mut m = Mutex { word: 1 };
    let mut at = Wait::start(0x40);
    let mut trace = Vec::new();
    while let Some(a) = at.action() {
        trace.push((at, a));
        at = c.wait(&mut m, at);
    }
    assert_eq!(at, Wait::Woken);
    assert_eq!(
        trace,
        vec![
            (
                Wait::Read { mutex: 0x40 },
                Action::Load { place: Place::Epoch, order: Memord::Acquire }
            ),
            (
                Wait::Look { mutex: 0x40, epoch: 9 },
                Action::Load { place: Place::Bound, order: Memord::Acquire }
            ),
            (
                Wait::Bind { mutex: 0x40, epoch: 9 },
                Action::Bind { mutex: 0x40, order: Memord::AcqRel }
            ),
            (
                Wait::Unlock { epoch: 9, at: Unlock::Release { spins: 0x100 } },
                Action::Swap { place: Place::Mutex, value: 0, order: Memord::Release }
            ),
            (Wait::Sleep { epoch: 9 }, Action::Wait { place: Place::Epoch, expected: 9 }),
            (
                Wait::Retake,
                Action::Swap { place: Place::Mutex, value: 2, order: Memord::AcqRel }
            ),
        ]
    );
    assert_eq!(c.ptr, 0x40);
    assert_eq!(c.seq, 9);
    assert_eq!(m.word, 2);
}

#[test]
fn wait_on_a_bound_condvar_does_not_bind_again() {
    let mut c = CondVar { ptr: 0x40, seq: 0 };
    let mut m = Mutex { word: 1 };
    let mut at = Wait::start(0x40);
    at = c.wait(&mut m, at);
    at = c.wait(&mut m, at);
    assert_eq!(at, Wait::Unlock { epoch: 0, at: Unlock::Release { spins: SPINS } });
    assert_eq!(c.ptr, 0x40);
}

#[test]
fn wait_with_a_second_mutex_is_refused_and_keeps_the_lock() {
    let mut c = CondVar { ptr: 0x40, seq: 0 };
    let mut m = Mutex { word: 1 };
    let mut at = Wait::start(0x80);
    at = c.wait(&mut m, at);
    at = c.wait(&mut m, at);
    assert_eq!(at, Wait::Foreign);
    assert_eq!(at.action(), None);
    assert_eq!(c.wait(&mut m, at), Wait::Foreign);
    assert_eq!(m.word, 1);
    assert_eq!(c.ptr, 0x40);
}

#[test]
fn a_bind_that_loses_against_another_mutex_is_refused() {
    let mut c = CondVar { ptr: 0, seq: 0 };
    let mut m = Mutex { word: 1 };
    let mut at = Wait::start(0x80);
    at = c.wait(&mut m, at);
    at = c.wait(&mut m, at);
    assert_eq!(at, Wait::Bind { mutex: 0x80, epoch: 0 });
    c.ptr = 0x40;
    at = c.wait(&mut m, at);
    assert_eq!(at, Wait::Foreign);
    assert_eq!(c.ptr, 0x40);
}

#[test]
fn a_bind_that_loses_against_the_same_mutex_goes_on() {
    let mut c = CondVar { ptr: 0, seq: 0 };
    let mut m = Mutex { word: 1 };
    let mut at = Wait::Bind { mutex: 0x80, epoch: 0 };
    c.ptr = 0x80;
    at = c.wait(&mut m, at);
    assert_eq!(at, Wait::Unlock { epoch: 0, at: Unlock::Release { spins: SPINS } });
}

#[test]
fn wait_unlocks_a_contended_mutex_with_a_wake() {
    let mut c = CondVar { ptr: 0x40, seq: 3 };
    let mut m = Mutex { word: 2 };
    let mut at = Wait::Unlock { epoch: 3, at: Unlock::Release { spins: 1 } };
    let mut trace = Vec::new();
    while !matches!(at, Wait::Sleep { .. }) {
        trace.push(at.action().unwrap());
        at = c.wait(&mut m, at);
    }
    assert_eq!(
        trace,
        vec![
            Action::Swap { place: Place::Mutex, value: 0, order: Memord::Release },
            Action::Load { place: Place::Mutex, order: Memord::Acquire },
            Action::Relax,
            Action::Wake { place: Place::Mutex, count: 1 },
        ]
    );
    assert_eq!(at, Wait::Sleep { epoch: 3 });
    assert_eq!(m.word, 0);
}

#[test]
fn a_woken_waiter_blocks_on_the_mutex_while_it_is_held() {
    let mut c = CondVar { ptr: 0x40, seq: 1 };
    let mut m = Mutex { word: 1 };
    let mut at = Wait::Sleep { epoch: 0 };
    at = c.wait(&mut m, at);
    assert_eq!(at, Wait::Retake);
    at = c.wait(&mut m, at);
    assert_eq!(at, Wait::Park);
    assert_eq!(m.word, 2);
    assert_eq!(at.action(), Some(Action::Wait { place: Place::Mutex, expected: 2 }));
    at = c.wait(&mut m, at);
    assert_eq!(at, Wait::Retake);
    m.word = 0;
    at = c.wait(&mut m, at);
    assert_eq!(at, Wait::Woken);
    assert_eq!(m.word, 2);
}

#[test]
fn notify_one_advances_the_generation_and_wakes_one() {
    let mut c = CondVar { ptr: 0, seq: 7 };
    let mut at = NotifyOne::start();
    assert_eq!(
        at.action(),
        Some(Action::FetchAdd { place: Place::Epoch, value: 1, order: Memord::Relaxed })
    );
    at = c.notify_one(at);
    assert_eq!(c.seq, 8);
    assert_eq!(at.action(), Some(Action::Wake { place: Place::Epoch, count: 1 }));
    at = c.notify_one(at);
    assert_eq!(at, NotifyOne::Done);
    assert_eq!(at.action(), None);
    assert_eq!(c.notify_one(at), NotifyOne::Done);
    assert_eq!(c.seq, 8);
}

#[test]
fn notify_one_wraps_the_generation() {
    let mut c = CondVar { ptr: 0, seq: u32::MAX };
    c.notify_one(NotifyOne::start());
    assert_eq!(c.seq, 0);
}

#[test]
fn notify_all_on_an_unbound_condvar_does_nothing() {
    let mut c = CondVar::new();
    let at = NotifyAll::start();
    assert_eq!(at.action(), Some(Action::Load { place: Place::Bound, order: Memord::Acquire }));
    assert_eq!(c.notify_all(at), NotifyAll::Done);
    assert_eq!(c.seq, 0);
    assert_eq!(NotifyAll::Done.action(), None);
}

#[test]
fn notify_all_advances_the_generation_and_requeues_onto_the_bound_mutex() {
    let mut c = CondVar { ptr: 0x40, seq: 5 };
    let mut at = c.notify_all(NotifyAll::start());
    assert_eq!(at, NotifyAll::Bump { to: 0x40 });
    assert_eq!(
        at.action(),
        Some(Action::FetchAdd { place: Place::Epoch, value: 1, order: Memord::Relaxed })
    );
    at = c.notify_all(at);
    assert_eq!(c.seq, 6);
    assert_eq!(
        at.action(),
        Some(Action::Requeue { place: Place::Epoch, wake: 1, requeue: usize::MAX, target: 0x40 })
    );
    at = c.notify_all(at);
    assert_eq!(at, NotifyAll::Done);
    assert_eq!(c.seq, 6);
    assert_eq!(c.ptr, 0x40);
}

#[test]
fn a_notification_before_the_sleep_keeps_the_waiter_awake() {
    let mut c = CondVar { ptr: 0x40, seq: 0 };
    let mut m = Mutex { word: 1 };
    let mut at = Wait::start(0x40);
    while !matches!(at, Wait::Sleep { .. }) {
        at = c.wait(&mut m, at);
    }
    c.notify_one(NotifyOne::start());
    match at.action() {
        Some(Action::Wait { expected, .. }) => assert_ne!(expected, c.seq),
        _ => panic!("the waiter is not about to sleep"),
    }
}
