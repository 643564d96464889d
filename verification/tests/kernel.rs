use futex_sync::kernel::{futex_reque, futex_stir, futex_wait, futex_wake, Queue};

fn queue_of(threads: &[usize]) -> Queue {
    Queue { parked: threads.to_vec() }
}

#[test]
fn new_queue_is_empty() {
    let q = Queue::new();
    assert!(q.parked.is_empty());
    assert!(!q.holds(0));
}

#[test]
fn wait_blocks_only_while_the_word_holds_the_expected_value() {
    let mut q = Queue::new();
    assert!(!futex_wait(&mut q, 1, 2, 7));
    assert!(q.parked.is_empty());
    assert!(futex_wait(&mut q, 2, 2, 7));
    assert!(futex_wait(&mut q, 0, 0, 3));
    assert_eq!(q.parked, vec![7, 3]);
    assert!(q.holds(7));
    assert!(q.holds(3));
    assert!(!q.holds(2));
}

#[test]
fn wake_wakes_the_longest_blocked_first_and_says_how_many() {
    let mut q = queue_of(&[4, 9, 1, 6]);
    assert_eq!(futex_wake(&mut q, 1), 1);
    assert_eq!(q.parked, vec![9, 1, 6]);
    assert_eq!(futex_wake(&mut q, 2), 2);
    assert_eq!(q.parked, vec![6]);
    assert_eq!(futex_wake(&mut q, 0), 0);
    assert_eq!(q.parked, vec![6]);
}

#[test]
fn wake_wakes_no_more_than_are_blocked() {
    let mut q = queue_of(&[4, 9]);
    assert_eq!(futex_wake(&mut q, usize::MAX), 2);
    assert!(q.parked.is_empty());
    assert_eq!(futex_wake(&mut q, 1), 0);
}

#[test]
fn requeue_wakes_some_and_moves_the_rest() {
    let mut from = queue_of(&[1, 2, 3, 4, 5]);
    let mut to = queue_of(&[8]);
    assert_eq!(futex_reque(&mut from, 1, usize::MAX, &mut to), 1);
    assert!(from.parked.is_empty());
    assert_eq!(to.parked, vec![8, 2, 3, 4, 5]);
}

#[test]
fn requeue_moves_no_more_than_asked() {
    let mut from = queue_of(&[1, 2, 3, 4, 5]);
    let mut to = Queue::new();
    assert_eq!(futex_reque(&mut from, 2, 2, &mut to), 2);
    assert_eq!(from.parked, vec![5]);
    assert_eq!(to.parked, vec![3, 4]);
}

#[test]
fn requeue_on_an_empty_queue_does_nothing() {
    let mut from = Queue::new();
    let mut to = queue_of(&[8]);
    assert_eq!(futex_reque(&mut from, 1, usize::MAX, &mut to), 0);
    assert!(from.parked.is_empty());
    assert_eq!(to.parked, vec![8]);
}

#[test]
fn requeue_with_fewer_blocked_than_to_wake_moves_nobody() {
    let mut from = queue_of(&[1]);
    let mut to = Queue::new();
    assert_eq!(futex_reque(&mut from, 3, 3, &mut to), 1);
    assert!(from.parked.is_empty());
    assert!(to.parked.is_empty());
}

#[test]
fn a_thread_let_go_without_cause_leaves_the_queue() {
    let mut q = queue_of(&[4, 9, 1, 6]);
    futex_stir(&mut q, 1);
    assert_eq!(q.parked, vec![4, 9, 6]);
    futex_stir(&mut q, 4);
    assert_eq!(q.parked, vec![9, 6]);
    assert!(!q.holds(4));
}

#[test]
fn letting_go_a_thread_that_is_not_blocked_changes_nothing() {
    let mut q = queue_of(&[4, 9]);
    futex_stir(&mut q, 5);
    assert_eq!(q.parked, vec![4, 9]);
    let mut empty = Queue::new();
    futex_stir(&mut empty, 0);
    assert!(empty.parked.is_empty());
}
