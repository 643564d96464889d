//! The kernel's side of the bargain: for every word, the threads that are
//! blocked on it, and the three calls that put them there, wake them and
//! move them.

use vstd::prelude::*;

verus! {

/// The threads blocked on one word, the longest-blocked first. A thread is
/// named by a number of the caller's choosing.
pub struct Queue {
    pub parked: Vec<usize>,
}

/// The smaller of a count asked for and a number of threads at hand.
pub open spec fn up_to(n: usize, at_hand: int) -> int {
    if n < at_hand {
        n as int
    } else {
        at_hand
    }
}

impl Queue {
    /// A word that nobody is blocked on.
    pub fn new() -> (q: Queue)
        ensures
            q.parked@ == Seq::<usize>::empty(),
    {
        Queue { parked: Vec::new() }
    }

    /// Whether thread `who` is blocked on the word.
    pub fn holds(&self, who: usize) -> (found: bool)
        ensures
            found == self.parked@.contains(who),
    {
        let mut i: usize = 0;
        while i < self.parked.len()
            invariant
                i <= self.parked.len(),
                forall|k: int| 0 <= k < i ==> self.parked@[k] != who,
            decreases self.parked.len() - i,
        {
            if self.parked[i] == who {
                return true;
            }
            i += 1;
        }
        false
    }
}

/// The queue after a thread `who` has asked to block on a word that holds
/// `word`, for as long as it holds `val`.
pub open spec fn waited<A>(parked: Seq<A>, word: u32, val: u32, who: A) -> Seq<A> {
    if word == val {
        parked.push(who)
    } else {
        parked
    }
}

/// The queue after up to `n` of its threads have been woken.
pub open spec fn woken<A>(parked: Seq<A>, n: usize) -> Seq<A> {
    parked.skip(up_to(n, parked.len() as int))
}

/// The queue of a word and the queue of `target` after up to `n` threads of
/// the first have been woken and up to `m` of those that follow have been
/// moved to the second.
pub open spec fn requeued<A>(parked: Seq<A>, target: Seq<A>, n: usize, m: usize) -> (
    Seq<A>,
    Seq<A>,
) {
    let rest = woken(parked, n);
    let moved = up_to(m, rest.len() as int);
    (rest.skip(moved), target + rest.take(moved))
}

/// The queue after the kernel has let thread `who` return from its wait
/// without having been woken, as it may at any time.
pub open spec fn stirred<A>(parked: Seq<A>, who: A) -> Seq<A> {
    parked.filter(|other: A| other != who)
}

/// The kernel lets thread `who` return from its wait without having been
/// woken. The thread leaves the queue; the others keep their order.
pub fn futex_stir(f: &mut Queue, who: usize)
    ensures
        final(f).parked@ == stirred(old(f).parked@, who),
{
    let mut kept: Vec<usize> = Vec::new();
    let mut i: usize = 0;
    while i < f.parked.len()
        invariant
            i <= f.parked.len(),
            kept@ == stirred(f.parked@.take(i as int), who),
        decreases f.parked.len() - i,
    {
        proof {
            reveal(Seq::filter);
            assert(f.parked@.take(i + 1).drop_last() == f.parked@.take(i as int));
        }
        if f.parked[i] != who {
            kept.push(f.parked[i]);
        }
        i += 1;
    }
    proof {
        reveal(Seq::filter);
        assert(f.parked@.take(f.parked@.len() as int) == f.parked@);
    }
    f.parked = kept;
}

/// Thread `who` asks to block on a word that holds `word` at this moment,
/// for as long as it holds `val`. It joins the queue if and only if the two
/// are equal; otherwise the call returns at once.
pub fn futex_wait(f: &mut Queue, word: u32, val: u32, who: usize) -> (blocked: bool)
    ensures
        blocked == (word == val),
        final(f).parked@ == waited(old(f).parked@, word, val, who),
{
    if word == val {
        f.parked.push(who);
        true
    } else {
        false
    }
}

/// Wakes up to `n` of the threads blocked on the word, the longest-blocked
/// first, and returns how many it woke.
pub fn futex_wake(f: &mut Queue, n: usize) -> (count: usize)
    ensures
        count == up_to(n, old(f).parked@.len() as int),
        final(f).parked@ == woken(old(f).parked@, n),
{
    let mut count: usize = 0;
    while count < n && f.parked.len() > 0
        invariant
            count <= n,
            count <= old(f).parked@.len(),
            f.parked@ == old(f).parked@.skip(count as int),
        decreases f.parked@.len(),
    {
        f.parked.remove(0);
        count += 1;
    }
    count
}

/// Wakes up to `n` of the threads blocked on the word, the longest-blocked
/// first, moves up to `m` of those that follow to the end of the queue of
/// `target`, in their order, and returns how many it woke.
pub fn futex_reque(f: &mut Queue, n: usize, m: usize, target: &mut Queue) -> (count: usize)
    ensures
        count == up_to(n, old(f).parked@.len() as int),
        final(f).parked@ == requeued(old(f).parked@, old(target).parked@, n, m).0,
        final(target).parked@ == requeued(old(f).parked@, old(target).parked@, n, m).1,
{
    let count: usize = futex_wake(f, n);
    let ghost rest = f.parked@;
    let mut moved: usize = 0;
    while moved < m && f.parked.len() > 0
        invariant
            moved <= m,
            moved <= rest.len(),
            f.parked@ == rest.skip(moved as int),
            target.parked@ == old(target).parked@ + rest.take(moved as int),
        decreases f.parked@.len(),
    {
        let who: usize = f.parked.remove(0);
        target.parked.push(who);
        moved += 1;
    }
    count
}

} // verus!
