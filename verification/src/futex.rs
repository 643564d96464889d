//! The protocols themselves: the accesses they are made of, the machines
//! that order them, and the shared words they act on.

use vstd::prelude::*;

verus! {

/// Memory ordering of an atomic access.
#[derive(Clone, Copy, Debug, PartialEq, Eq, Structural)]
pub enum Memord {
    Relaxed,
    Acquire,
    Release,
    AcqRel,
}

/// The shared locations that the primitives act on.
#[derive(Clone, Copy, Debug, PartialEq, Eq, Structural)]
pub enum Place {
    /// The tri-state word of a mutex: 0 unlocked, 1 locked, 2 locked and
    /// contended.
    Mutex,
    /// The generation word of a barrier or of a condition variable.
    Epoch,
    /// The arrival counter of a barrier.
    Count,
    /// The address of the mutex word that a condition variable is bound to;
    /// zero while it is unbound.
    Bound,
}

/// One indivisible thing a thread does to the shared state: an atomic access
/// to one location, a call into the kernel's wait queue, or a pause.
#[derive(Clone, Copy, Debug, PartialEq, Eq, Structural)]
pub enum Action {
    /// Read the location.
    Load { place: Place, order: Memord },
    /// Write `value`; nothing is returned.
    Store { place: Place, value: u32, order: Memord },
    /// Write `value` and return what was there.
    Swap { place: Place, value: u32, order: Memord },
    /// Write `new` if the location holds `current`; return what was there.
    CompareAndSwap { place: Place, current: u32, new: u32, order: Memord },
    /// Add `value`, wrapping, and return what was there.
    FetchAdd { place: Place, value: u32, order: Memord },
    /// On `Place::Bound`: write `mutex` if the location is zero; return what
    /// was there.
    Bind { mutex: usize, order: Memord },
    /// Block while the word at `place` holds `expected`, until woken. May
    /// return at any time.
    Wait { place: Place, expected: u32 },
    /// Wake up to `count` threads blocked on `place`.
    Wake { place: Place, count: usize },
    /// Wake up to `wake` threads blocked on `place` and move up to `requeue`
    /// of the others to block on the word at address `target`.
    Requeue { place: Place, wake: usize, requeue: usize, target: usize },
    /// Yield the processor for a moment.
    Relax,
}

impl Action {
    /// The location whose contents the action may read or change. Calls
    /// into the kernel and pauses touch none.
    pub open spec fn target(self) -> Option<Place> {
        match self {
            Action::Load { place, .. } => Some(place),
            Action::Store { place, .. } => Some(place),
            Action::Swap { place, .. } => Some(place),
            Action::CompareAndSwap { place, .. } => Some(place),
            Action::FetchAdd { place, .. } => Some(place),
            Action::Bind { .. } => Some(Place::Bound),
            _ => None,
        }
    }

    /// Whether the action reads or changes `place`.
    pub open spec fn touches(self, place: Place) -> bool {
        self.target() == Some(place)
    }

    /// The location that the action reads or changes, if any.
    pub fn place(&self) -> (p: Option<Place>)
        ensures
            p == self.target(),
    {
        match self {
            Action::Load { place, .. } => Some(*place),
            Action::Store { place, .. } => Some(*place),
            Action::Swap { place, .. } => Some(*place),
            Action::CompareAndSwap { place, .. } => Some(*place),
            Action::FetchAdd { place, .. } => Some(*place),
            Action::Bind { .. } => Some(Place::Bound),
            _ => None,
        }
    }
}

/// What a 32-bit word holds once `a` has been performed on it.
pub open spec fn word_after(w: u32, a: Action) -> u32 {
    match a {
        Action::Store { value, .. } => value,
        Action::Swap { value, .. } => value,
        Action::CompareAndSwap { current, new, .. } => if w == current { new } else { w },
        Action::FetchAdd { value, .. } => w.wrapping_add(value),
        _ => w,
    }
}

/// What `a` returns to the thread that performs it on a 32-bit word: the
/// prior contents for a read, zero where nothing is read.
pub open spec fn word_seen(w: u32, a: Action) -> usize {
    match a {
        Action::Load { .. } => w as usize,
        Action::Swap { .. } => w as usize,
        Action::CompareAndSwap { .. } => w as usize,
        Action::FetchAdd { .. } => w as usize,
        _ => 0,
    }
}

/// What a pointer-sized location holds once `a` has been performed on it.
pub open spec fn wide_after(v: usize, a: Action) -> usize {
    match a {
        Action::Store { value, .. } => value as usize,
        Action::Swap { value, .. } => value as usize,
        Action::CompareAndSwap { current, new, .. } => if v == current { new as usize } else { v },
        Action::FetchAdd { value, .. } => v.wrapping_add(value as usize),
        Action::Bind { mutex, .. } => if v == 0 { mutex } else { v },
        _ => v,
    }
}

/// What `a` returns to the thread that performs it on a pointer-sized
/// location.
pub open spec fn wide_seen(v: usize, a: Action) -> usize {
    match a {
        Action::Load { .. } => v,
        Action::Swap { .. } => v,
        Action::CompareAndSwap { .. } => v,
        Action::FetchAdd { .. } => v,
        Action::Bind { .. } => v,
        _ => 0,
    }
}

/// Performs `a` on a 32-bit word and returns what the thread gets to see.
pub fn access(word: &mut u32, a: Action) -> (seen: usize)
    ensures
        *final(word) == word_after(*old(word), a),
        seen == word_seen(*old(word), a),
{
    let prior: u32 = *word;
    match a {
        Action::Load { .. } => prior as usize,
        Action::Store { value, .. } => {
            *word = value;
            0
        },
        Action::Swap { value, .. } => {
            *word = value;
            prior as usize
        },
        Action::CompareAndSwap { current, new, .. } => {
            if prior == current {
                *word = new;
            }
            prior as usize
        },
        Action::FetchAdd { value, .. } => {
            *word = prior.wrapping_add(value);
            prior as usize
        },
        _ => 0,
    }
}

/// Performs `a` on a pointer-sized location and returns what the thread gets
/// to see.
pub fn access_wide(cell: &mut usize, a: Action) -> (seen: usize)
    ensures
        *final(cell) == wide_after(*old(cell), a),
        seen == wide_seen(*old(cell), a),
{
    let prior: usize = *cell;
    match a {
        Action::Load { .. } => prior,
        Action::Store { value, .. } => {
            *cell = value as usize;
            0
        },
        Action::Swap { value, .. } => {
            *cell = value as usize;
            prior
        },
        Action::CompareAndSwap { current, new, .. } => {
            if prior == current as usize {
                *cell = new as usize;
            }
            prior
        },
        Action::FetchAdd { value, .. } => {
            *cell = prior.wrapping_add(value as usize);
            prior
        },
        Action::Bind { mutex, .. } => {
            if prior == 0 {
                *cell = mutex;
            }
            prior
        },
        _ => 0,
    }
}


/// Where a thread stands inside `lock` or `try_lock`.
#[derive(Clone, Copy, Debug, PartialEq, Eq, Structural)]
pub enum Lock {
    /// About to make the single attempt of `try_lock`.
    Try,
    /// About to make one of the `left` attempts that remain before parking.
    Spin { left: usize },
    /// About to pause after a failed attempt; `left` attempts remain.
    Relax { left: usize },
    /// Out of attempts: about to mark the word contended.
    Mark,
    /// About to block on the word while it says contended.
    Park,
    /// Back from the kernel: about to mark the word contended again.
    Remark,
    /// The lock is held by this thread.
    Held,
    /// `try_lock` found the lock taken.
    Busy,
}

impl Lock {
    /// The state in which `lock` begins with a budget of `spins` attempts.
    pub open spec fn begun(spins: usize) -> Lock {
        if spins > 0 {
            Lock::Spin { left: spins }
        } else {
            Lock::Mark
        }
    }

    /// The access that a thread in this state makes next; none once the
    /// operation has ended.
    pub open spec fn pending(self) -> Option<Action> {
        match self {
            Lock::Try | Lock::Spin { .. } => Some(
                Action::CompareAndSwap {
                    place: Place::Mutex,
                    current: 0,
                    new: 1,
                    order: Memord::Acquire,
                },
            ),
            Lock::Relax { .. } => Some(Action::Relax),
            Lock::Mark => Some(
                Action::Swap { place: Place::Mutex, value: 2, order: Memord::AcqRel },
            ),
            Lock::Park => Some(Action::Wait { place: Place::Mutex, expected: 2 }),
            Lock::Remark => Some(
                Action::Swap { place: Place::Mutex, value: 2, order: Memord::Release },
            ),
            Lock::Held | Lock::Busy => None,
        }
    }

    /// The state after the pending access returned `seen`. An attempt wins
    /// when it saw the word unlocked; a swap to contended wins likewise, and
    /// otherwise leads into the kernel.
    pub open spec fn resumed(self, seen: usize) -> Lock {
        match self {
            Lock::Try => if seen == 0 {
                Lock::Held
            } else {
                Lock::Busy
            },
            Lock::Spin { left } => if seen == 0 {
                Lock::Held
            } else if left > 0 {
                Lock::Relax { left: (left - 1) as usize }
            } else {
                Lock::Relax { left: 0 }
            },
            Lock::Relax { left } => if left > 0 {
                Lock::Spin { left }
            } else {
                Lock::Mark
            },
            Lock::Mark | Lock::Remark => if seen == 0 {
                Lock::Held
            } else {
                Lock::Park
            },
            Lock::Park => Lock::Remark,
            Lock::Held => Lock::Held,
            Lock::Busy => Lock::Busy,
        }
    }

    /// Begins `lock` with a budget of `spins` attempts.
    pub fn start(spins: usize) -> (at: Lock)
        ensures
            at == Lock::begun(spins),
    {
        if spins > 0 {
            Lock::Spin { left: spins }
        } else {
            Lock::Mark
        }
    }

    /// The access to make next.
    pub fn action(&self) -> (a: Option<Action>)
        ensures
            a == self.pending(),
    {
        match self {
            Lock::Try | Lock::Spin { .. } => Some(
                Action::CompareAndSwap {
                    place: Place::Mutex,
                    current: 0,
                    new: 1,
                    order: Memord::Acquire,
                },
            ),
            Lock::Relax { .. } => Some(Action::Relax),
            Lock::Mark => Some(
                Action::Swap { place: Place::Mutex, value: 2, order: Memord::AcqRel },
            ),
            Lock::Park => Some(Action::Wait { place: Place::Mutex, expected: 2 }),
            Lock::Remark => Some(
                Action::Swap { place: Place::Mutex, value: 2, order: Memord::Release },
            ),
            Lock::Held | Lock::Busy => None,
        }
    }

    /// Moves on from what the pending access returned.
    pub fn resume(self, seen: usize) -> (next: Lock)
        ensures
            next == self.resumed(seen),
    {
        match self {
            Lock::Try => if seen == 0 {
                Lock::Held
            } else {
                Lock::Busy
            },
            Lock::Spin { left } => if seen == 0 {
                Lock::Held
            } else if left > 0 {
                Lock::Relax { left: left - 1 }
            } else {
                Lock::Relax { left: 0 }
            },
            Lock::Relax { left } => if left > 0 {
                Lock::Spin { left }
            } else {
                Lock::Mark
            },
            Lock::Mark | Lock::Remark => if seen == 0 {
                Lock::Held
            } else {
                Lock::Park
            },
            Lock::Park => Lock::Remark,
            Lock::Held => Lock::Held,
            Lock::Busy => Lock::Busy,
        }
    }
}

/// Where a thread stands inside `unlock`.
#[derive(Clone, Copy, Debug, PartialEq, Eq, Structural)]
pub enum Unlock {
    /// About to write the word back to unlocked; `spins` is the budget for
    /// what may follow.
    Release { spins: usize },
    /// The word was contended: about to look whether somebody has taken the
    /// lock since; `left` looks remain, this one included.
    Peek { left: usize },
    /// Somebody has: about to mark the word contended on their behalf.
    Claim { left: usize },
    /// About to pause; `left` looks remain.
    Relax { left: usize },
    /// Nobody took over: about to wake one blocked thread.
    Wake,
    /// Nothing is left to do.
    Done,
}

impl Unlock {
    /// The state in which `unlock` begins.
    pub open spec fn begun(spins: usize) -> Unlock {
        Unlock::Release { spins }
    }

    /// The state that opens the waiting phase with `left` looks.
    pub open spec fn looking(left: usize) -> Unlock {
        if left > 0 {
            Unlock::Peek { left }
        } else {
            Unlock::Wake
        }
    }

    /// The state after a look that settled nothing.
    pub open spec fn paused(left: usize) -> Unlock {
        if left > 0 {
            Unlock::Relax { left: (left - 1) as usize }
        } else {
            Unlock::Relax { left: 0 }
        }
    }

    /// The access that a thread in this state makes next.
    pub open spec fn pending(self) -> Option<Action> {
        match self {
            Unlock::Release { .. } => Some(
                Action::Swap { place: Place::Mutex, value: 0, order: Memord::Release },
            ),
            Unlock::Peek { .. } => Some(
                Action::Load { place: Place::Mutex, order: Memord::Acquire },
            ),
            Unlock::Claim { .. } => Some(
                Action::CompareAndSwap {
                    place: Place::Mutex,
                    current: 1,
                    new: 2,
                    order: Memord::AcqRel,
                },
            ),
            Unlock::Relax { .. } => Some(Action::Relax),
            Unlock::Wake => Some(Action::Wake { place: Place::Mutex, count: 1 }),
            Unlock::Done => None,
        }
    }

    /// The state after the pending access returned `seen`. A release that
    /// saw the word merely locked is done at once. Otherwise the thread
    /// keeps looking: once it sees the lock taken again and the word says
    /// contended, by its own marking or already, the new holder will do the
    /// waking; if the budget runs out first, it wakes one thread itself.
    pub open spec fn resumed(self, seen: usize) -> Unlock {
        match self {
            Unlock::Release { spins } => if seen == 1 {
                Unlock::Done
            } else {
                Unlock::looking(spins)
            },
            Unlock::Peek { left } => if seen > 0 {
                Unlock::Claim { left }
            } else {
                Unlock::paused(left)
            },
            Unlock::Claim { left } => if seen > 0 {
                Unlock::Done
            } else {
                Unlock::paused(left)
            },
            Unlock::Relax { left } => Unlock::looking(left),
            Unlock::Wake => Unlock::Done,
            Unlock::Done => Unlock::Done,
        }
    }

    /// Begins `unlock` with a budget of `spins` looks.
    pub fn start(spins: usize) -> (at: Unlock)
        ensures
            at == Unlock::begun(spins),
    {
        Unlock::Release { spins }
    }

    fn look(left: usize) -> (at: Unlock)
        ensures
            at == Unlock::looking(left),
    {
        if left > 0 {
            Unlock::Peek { left }
        } else {
            Unlock::Wake
        }
    }

    fn pause(left: usize) -> (at: Unlock)
        ensures
            at == Unlock::paused(left),
    {
        if left > 0 {
            Unlock::Relax { left: left - 1 }
        } else {
            Unlock::Relax { left: 0 }
        }
    }

    /// The access to make next.
    pub fn action(&self) -> (a: Option<Action>)
        ensures
            a == self.pending(),
    {
        match self {
            Unlock::Release { .. } => Some(
                Action::Swap { place: Place::Mutex, value: 0, order: Memord::Release },
            ),
            Unlock::Peek { .. } => Some(
                Action::Load { place: Place::Mutex, order: Memord::Acquire },
            ),
            Unlock::Claim { .. } => Some(
                Action::CompareAndSwap {
                    place: Place::Mutex,
                    current: 1,
                    new: 2,
                    order: Memord::AcqRel,
                },
            ),
            Unlock::Relax { .. } => Some(Action::Relax),
            Unlock::Wake => Some(Action::Wake { place: Place::Mutex, count: 1 }),
            Unlock::Done => None,
        }
    }

    /// Moves on from what the pending access returned.
    pub fn resume(self, seen: usize) -> (next: Unlock)
        ensures
            next == self.resumed(seen),
    {
        match self {
            Unlock::Release { spins } => if seen == 1 {
                Unlock::Done
            } else {
                Unlock::look(spins)
            },
            Unlock::Peek { left } => if seen > 0 {
                Unlock::Claim { left }
            } else {
                Unlock::pause(left)
            },
            Unlock::Claim { left } => if seen > 0 {
                Unlock::Done
            } else {
                Unlock::pause(left)
            },
            Unlock::Relax { left } => Unlock::look(left),
            Unlock::Wake => Unlock::Done,
            Unlock::Done => Unlock::Done,
        }
    }
}

/// A mutual-exclusion lock: one word, 0 while unlocked, 1 while locked, 2
/// while locked with a thread that is, or may be, blocked on it.
#[derive(Clone, Copy, Debug, PartialEq, Eq, Structural)]
pub struct Mutex {
    pub word: u32,
}

impl Mutex {
    /// The word and the thread's state after the thread at `at` has taken
    /// its next step of `lock` on a word that held `word`.
    pub open spec fn lock_step(word: u32, at: Lock) -> (u32, Lock) {
        match at.pending() {
            Some(a) => (word_after(word, a), at.resumed(word_seen(word, a))),
            None => (word, at),
        }
    }

    /// The same for `unlock`.
    pub open spec fn unlock_step(word: u32, at: Unlock) -> (u32, Unlock) {
        match at.pending() {
            Some(a) => (word_after(word, a), at.resumed(word_seen(word, a))),
            None => (word, at),
        }
    }

    /// An unlocked mutex.
    pub fn new() -> (m: Mutex)
        ensures
            m.word == 0,
    {
        Mutex { word: 0 }
    }

    /// One step of `lock` by a thread that stands at `at`: its pending
    /// access is performed on the word, and the thread moves on from what it
    /// saw. A thread begins at `Lock::start(spins)` and holds the lock when
    /// it has reached `Lock::Held`.
    pub fn lock(&mut self, at: Lock) -> (next: Lock)
        ensures
            final(self).word == Mutex::lock_step(old(self).word, at).0,
            next == Mutex::lock_step(old(self).word, at).1,
    {
        match at.action() {
            Some(a) => {
                let seen: usize = access(&mut self.word, a);
                at.resume(seen)
            },
            None => at,
        }
    }

    /// One step of `unlock` by a thread that stands at `at`. A thread
    /// begins at `Unlock::start(spins)`; the lock is free as soon as the
    /// first step has been taken.
    pub fn unlock(&mut self, at: Unlock) -> (next: Unlock)
        ensures
            final(self).word == Mutex::unlock_step(old(self).word, at).0,
            next == Mutex::unlock_step(old(self).word, at).1,
    {
        match at.action() {
            Some(a) => {
                let seen: usize = access(&mut self.word, a);
                at.resume(seen)
            },
            None => at,
        }
    }

    /// Takes the lock if it is free, in one access, and says whether it did.
    pub fn try_lock(&mut self) -> (won: bool)
        ensures
            won == (old(self).word == 0),
            final(self).word == if won { 1u32 } else { old(self).word },
    {
        match self.lock(Lock::Try) {
            Lock::Held => true,
            _ => false,
        }
    }
}


/// Where a thread stands inside a barrier's `wait`.
#[derive(Clone, Copy, Debug, PartialEq, Eq, Structural)]
pub enum Rendezvous {
    /// About to read the generation; the barrier is for `total` threads.
    Read { total: usize },
    /// About to count itself in, having read generation `epoch`.
    Arrive { total: usize, epoch: u32 },
    /// Not the last to arrive: about to look whether the generation is still
    /// `epoch`.
    Check { epoch: u32 },
    /// About to block on the generation while it is `epoch`.
    Park { epoch: u32 },
    /// The last to arrive: about to set the arrival counter back to zero.
    Reset,
    /// About to advance the generation.
    Advance,
    /// About to wake everybody blocked on the generation.
    Wake,
    /// Back from `wait` with `false`.
    Released,
    /// Back from `wait` with `true`: this thread was the last to arrive.
    Leader,
    /// More threads arrived in one round than the barrier is for. The
    /// operation cannot go on.
    Crowded,
}

impl Rendezvous {
    /// The state in which `wait` begins on a barrier for `total` threads.
    pub open spec fn begun(total: usize) -> Rendezvous {
        Rendezvous::Read { total }
    }

    /// The access that a thread in this state makes next.
    pub open spec fn pending(self) -> Option<Action> {
        match self {
            Rendezvous::Read { .. } => Some(
                Action::Load { place: Place::Epoch, order: Memord::Acquire },
            ),
            Rendezvous::Arrive { .. } => Some(
                Action::FetchAdd { place: Place::Count, value: 1, order: Memord::Relaxed },
            ),
            Rendezvous::Check { .. } => Some(
                Action::Load { place: Place::Epoch, order: Memord::Relaxed },
            ),
            Rendezvous::Park { epoch } => Some(
                Action::Wait { place: Place::Epoch, expected: epoch },
            ),
            Rendezvous::Reset => Some(
                Action::Store { place: Place::Count, value: 0, order: Memord::Relaxed },
            ),
            Rendezvous::Advance => Some(
                Action::FetchAdd { place: Place::Epoch, value: 1, order: Memord::Release },
            ),
            Rendezvous::Wake => Some(Action::Wake { place: Place::Epoch, count: usize::MAX }),
            Rendezvous::Released | Rendezvous::Leader | Rendezvous::Crowded => None,
        }
    }

    /// The state after the pending access returned `seen`. The thread whose
    /// arrival makes the count reach `total` leads the round; one that finds
    /// the count there already is one too many; every other waits until the
    /// generation has moved on from the one it read.
    pub open spec fn resumed(self, seen: usize) -> Rendezvous {
        match self {
            Rendezvous::Read { total } => Rendezvous::Arrive { total, epoch: seen as u32 },
            Rendezvous::Arrive { total, epoch } => if seen + 1 < total {
                Rendezvous::Check { epoch }
            } else if seen + 1 == total {
                Rendezvous::Reset
            } else {
                Rendezvous::Crowded
            },
            Rendezvous::Check { epoch } => if seen == epoch {
                Rendezvous::Park { epoch }
            } else {
                Rendezvous::Released
            },
            Rendezvous::Park { epoch } => Rendezvous::Check { epoch },
            Rendezvous::Reset => Rendezvous::Advance,
            Rendezvous::Advance => Rendezvous::Wake,
            Rendezvous::Wake => Rendezvous::Leader,
            Rendezvous::Released => Rendezvous::Released,
            Rendezvous::Leader => Rendezvous::Leader,
            Rendezvous::Crowded => Rendezvous::Crowded,
        }
    }

    /// What `wait` returns once it has ended well: `true` in the thread
    /// that arrived last, `false` in the others.
    pub open spec fn result(self) -> Option<bool> {
        match self {
            Rendezvous::Leader => Some(true),
            Rendezvous::Released => Some(false),
            _ => None,
        }
    }

    /// What `wait` returns, once it has ended well.
    pub fn outcome(&self) -> (r: Option<bool>)
        ensures
            r == self.result(),
    {
        match self {
            Rendezvous::Leader => Some(true),
            Rendezvous::Released => Some(false),
            _ => None,
        }
    }

    /// Begins `wait` on a barrier for `total` threads.
    pub fn start(total: usize) -> (at: Rendezvous)
        ensures
            at == Rendezvous::begun(total),
    {
        Rendezvous::Read { total }
    }

    /// The access to make next.
    pub fn action(&self) -> (a: Option<Action>)
        ensures
            a == self.pending(),
    {
        match self {
            Rendezvous::Read { .. } => Some(
                Action::Load { place: Place::Epoch, order: Memord::Acquire },
            ),
            Rendezvous::Arrive { .. } => Some(
                Action::FetchAdd { place: Place::Count, value: 1, order: Memord::Relaxed },
            ),
            Rendezvous::Check { .. } => Some(
                Action::Load { place: Place::Epoch, order: Memord::Relaxed },
            ),
            Rendezvous::Park { epoch } => Some(
                Action::Wait { place: Place::Epoch, expected: *epoch },
            ),
            Rendezvous::Reset => Some(
                Action::Store { place: Place::Count, value: 0, order: Memord::Relaxed },
            ),
            Rendezvous::Advance => Some(
                Action::FetchAdd { place: Place::Epoch, value: 1, order: Memord::Release },
            ),
            Rendezvous::Wake => Some(Action::Wake { place: Place::Epoch, count: usize::MAX }),
            Rendezvous::Released | Rendezvous::Leader | Rendezvous::Crowded => None,
        }
    }

    /// Moves on from what the pending access returned.
    pub fn resume(self, seen: usize) -> (next: Rendezvous)
        ensures
            next == self.resumed(seen),
    {
        match self {
            Rendezvous::Read { total } => Rendezvous::Arrive {
                total,
                epoch: #[verifier::truncate]
                (seen as u32),
            },
            Rendezvous::Arrive { total, epoch } => if seen >= total {
                Rendezvous::Crowded
            } else if seen + 1 == total {
                Rendezvous::Reset
            } else {
                Rendezvous::Check { epoch }
            },
            Rendezvous::Check { epoch } => if seen == epoch as usize {
                Rendezvous::Park { epoch }
            } else {
                Rendezvous::Released
            },
            Rendezvous::Park { epoch } => Rendezvous::Check { epoch },
            Rendezvous::Reset => Rendezvous::Advance,
            Rendezvous::Advance => Rendezvous::Wake,
            Rendezvous::Wake => Rendezvous::Leader,
            Rendezvous::Released => Rendezvous::Released,
            Rendezvous::Leader => Rendezvous::Leader,
            Rendezvous::Crowded => Rendezvous::Crowded,
        }
    }
}

/// A rendezvous for `n_total` threads: the arrivals of the round that is
/// under way, and a generation that moves on once per round.
#[derive(Clone, Copy, Debug, PartialEq, Eq, Structural)]
pub struct Barrier {
    pub n_waiting: usize,
    pub n_total: usize,
    pub seq: u32,
}

impl Barrier {
    /// The barrier and the thread's state after the thread at `at` has taken
    /// its next step of `wait`.
    pub open spec fn wait_step(self, at: Rendezvous) -> (Barrier, Rendezvous) {
        match at.pending() {
            Some(a) => if a.touches(Place::Count) {
                (
                    Barrier { n_waiting: wide_after(self.n_waiting, a), ..self },
                    at.resumed(wide_seen(self.n_waiting, a)),
                )
            } else if a.touches(Place::Epoch) {
                (
                    Barrier { seq: word_after(self.seq, a), ..self },
                    at.resumed(word_seen(self.seq, a)),
                )
            } else {
                (self, at.resumed(0))
            },
            None => (self, at),
        }
    }

    /// A barrier for `n` threads, with nobody waiting.
    pub fn new(n: usize) -> (b: Barrier)
        ensures
            b == (Barrier { n_waiting: 0, n_total: n, seq: 0 }),
    {
        Barrier { n_waiting: 0, n_total: n, seq: 0 }
    }

    /// One step of `wait` by a thread that stands at `at`. A thread begins
    /// at `Rendezvous::start(n_total)` and is back from `wait` at
    /// `Rendezvous::Leader`, with `true`, or at `Rendezvous::Released`, with
    /// `false`.
    pub fn wait(&mut self, at: Rendezvous) -> (next: Rendezvous)
        ensures
            *final(self) == old(self).wait_step(at).0,
            next == old(self).wait_step(at).1,
    {
        match at.action() {
            Some(a) => {
                let seen: usize = match a.place() {
                    Some(Place::Count) => access_wide(&mut self.n_waiting, a),
                    Some(Place::Epoch) => access(&mut self.seq, a),
                    _ => 0,
                };
                at.resume(seen)
            },
            None => at,
        }
    }
}


/// The spin budget with which a condition variable gives up the mutex, and
/// with which the guarded mutex is locked and unlocked.
pub const SPINS: usize = 0x100;

/// Where a thread stands inside a condition variable's `wait`.
#[derive(Clone, Copy, Debug, PartialEq, Eq, Structural)]
pub enum Wait {
    /// About to read the generation. `mutex` is the address of the word of
    /// the mutex that the thread holds.
    Read { mutex: usize },
    /// About to look which mutex the condition variable is bound to.
    Look { mutex: usize, epoch: u32 },
    /// It was bound to none: about to bind it to `mutex`.
    Bind { mutex: usize, epoch: u32 },
    /// Giving up the mutex, at `at` inside its `unlock`.
    Unlock { epoch: u32, at: Unlock },
    /// About to block on the generation while it is `epoch`.
    Sleep { epoch: u32 },
    /// Notified, or woken without cause: about to take the mutex back by
    /// marking its word contended.
    Retake,
    /// The mutex is held by another thread: about to block on its word.
    Park,
    /// Back from `wait`, holding the mutex again.
    Woken,
    /// The condition variable is bound to another mutex. The operation
    /// cannot go on; the mutex is still held.
    Foreign,
}

impl Wait {
    /// The state in which `wait` begins for a thread that holds the mutex
    /// whose word is at address `mutex`.
    pub open spec fn begun(mutex: usize) -> Wait {
        Wait::Read { mutex }
    }

    /// The state in which the thread starts to give up the mutex.
    pub open spec fn releasing(epoch: u32) -> Wait {
        Wait::Unlock { epoch, at: Unlock::begun(SPINS) }
    }

    /// The access that a thread in this state makes next.
    pub open spec fn pending(self) -> Option<Action> {
        match self {
            Wait::Read { .. } => Some(Action::Load { place: Place::Epoch, order: Memord::Acquire }),
            Wait::Look { .. } => Some(Action::Load { place: Place::Bound, order: Memord::Acquire }),
            Wait::Bind { mutex, .. } => Some(Action::Bind { mutex, order: Memord::AcqRel }),
            Wait::Unlock { at, .. } => at.pending(),
            Wait::Sleep { epoch } => Some(Action::Wait { place: Place::Epoch, expected: epoch }),
            Wait::Retake => Some(
                Action::Swap { place: Place::Mutex, value: 2, order: Memord::AcqRel },
            ),
            Wait::Park => Some(Action::Wait { place: Place::Mutex, expected: 2 }),
            Wait::Woken | Wait::Foreign => None,
        }
    }

    /// The state after the pending access returned `seen`. The thread reads
    /// the generation while it still holds the mutex, makes sure that the
    /// condition variable is bound to this mutex and to no other, gives the
    /// mutex up, and blocks on the generation it read. Once it is back it
    /// takes the mutex again, always by marking the word contended, and
    /// blocks on that word for as long as it finds the mutex held.
    pub open spec fn resumed(self, seen: usize) -> Wait {
        match self {
            Wait::Read { mutex } => Wait::Look { mutex, epoch: seen as u32 },
            Wait::Look { mutex, epoch } => if seen == 0 {
                Wait::Bind { mutex, epoch }
            } else if seen == mutex {
                Wait::releasing(epoch)
            } else {
                Wait::Foreign
            },
            Wait::Bind { mutex, epoch } => if seen == 0 || seen == mutex {
                Wait::releasing(epoch)
            } else {
                Wait::Foreign
            },
            Wait::Unlock { epoch, at } => if at.resumed(seen) == Unlock::Done {
                Wait::Sleep { epoch }
            } else {
                Wait::Unlock { epoch, at: at.resumed(seen) }
            },
            Wait::Sleep { .. } => Wait::Retake,
            Wait::Retake => if seen == 0 {
                Wait::Woken
            } else {
                Wait::Park
            },
            Wait::Park => Wait::Retake,
            Wait::Woken => Wait::Woken,
            Wait::Foreign => Wait::Foreign,
        }
    }

    /// Begins `wait` for a thread that holds the mutex whose word is at
    /// address `mutex`.
    pub fn start(mutex: usize) -> (at: Wait)
        ensures
            at == Wait::begun(mutex),
    {
        Wait::Read { mutex }
    }

    /// The access to make next.
    pub fn action(&self) -> (a: Option<Action>)
        ensures
            a == self.pending(),
    {
        match self {
            Wait::Read { .. } => Some(Action::Load { place: Place::Epoch, order: Memord::Acquire }),
            Wait::Look { .. } => Some(Action::Load { place: Place::Bound, order: Memord::Acquire }),
            Wait::Bind { mutex, .. } => Some(Action::Bind { mutex: *mutex, order: Memord::AcqRel }),
            Wait::Unlock { at, .. } => at.action(),
            Wait::Sleep { epoch } => Some(Action::Wait { place: Place::Epoch, expected: *epoch }),
            Wait::Retake => Some(
                Action::Swap { place: Place::Mutex, value: 2, order: Memord::AcqRel },
            ),
            Wait::Park => Some(Action::Wait { place: Place::Mutex, expected: 2 }),
            Wait::Woken | Wait::Foreign => None,
        }
    }

    /// Moves on from what the pending access returned.
    pub fn resume(self, seen: usize) -> (next: Wait)
        ensures
            next == self.resumed(seen),
    {
        match self {
            Wait::Read { mutex } => Wait::Look {
                mutex,
                epoch: #[verifier::truncate]
                (seen as u32),
            },
            Wait::Look { mutex, epoch } => if seen == 0 {
                Wait::Bind { mutex, epoch }
            } else if seen == mutex {
                Wait::Unlock { epoch, at: Unlock::start(SPINS) }
            } else {
                Wait::Foreign
            },
            Wait::Bind { mutex, epoch } => if seen == 0 || seen == mutex {
                Wait::Unlock { epoch, at: Unlock::start(SPINS) }
            } else {
                Wait::Foreign
            },
            Wait::Unlock { epoch, at } => {
                let next: Unlock = at.resume(seen);
                if next == Unlock::Done {
                    Wait::Sleep { epoch }
                } else {
                    Wait::Unlock { epoch, at: next }
                }
            },
            Wait::Sleep { .. } => Wait::Retake,
            Wait::Retake => if seen == 0 {
                Wait::Woken
            } else {
                Wait::Park
            },
            Wait::Park => Wait::Retake,
            Wait::Woken => Wait::Woken,
            Wait::Foreign => Wait::Foreign,
        }
    }
}

/// Where a thread stands inside `notify_one`.
#[derive(Clone, Copy, Debug, PartialEq, Eq, Structural)]
pub enum NotifyOne {
    /// About to advance the generation.
    Bump,
    /// About to wake one thread blocked on the generation.
    Wake,
    /// Nothing is left to do.
    Done,
}

impl NotifyOne {
    /// The state in which `notify_one` begins.
    pub open spec fn begun() -> NotifyOne {
        NotifyOne::Bump
    }

    /// The access that a thread in this state makes next.
    pub open spec fn pending(self) -> Option<Action> {
        match self {
            NotifyOne::Bump => Some(
                Action::FetchAdd { place: Place::Epoch, value: 1, order: Memord::Relaxed },
            ),
            NotifyOne::Wake => Some(Action::Wake { place: Place::Epoch, count: 1 }),
            NotifyOne::Done => None,
        }
    }

    /// The state after the pending access returned; what it returned does
    /// not matter.
    pub open spec fn resumed(self, seen: usize) -> NotifyOne {
        match self {
            NotifyOne::Bump => NotifyOne::Wake,
            NotifyOne::Wake => NotifyOne::Done,
            NotifyOne::Done => NotifyOne::Done,
        }
    }

    /// Begins `notify_one`.
    pub fn start() -> (at: NotifyOne)
        ensures
            at == NotifyOne::begun(),
    {
        NotifyOne::Bump
    }

    /// The access to make next.
    pub fn action(&self) -> (a: Option<Action>)
        ensures
            a == self.pending(),
    {
        match self {
            NotifyOne::Bump => Some(
                Action::FetchAdd { place: Place::Epoch, value: 1, order: Memord::Relaxed },
            ),
            NotifyOne::Wake => Some(Action::Wake { place: Place::Epoch, count: 1 }),
            NotifyOne::Done => None,
        }
    }

    /// Moves on from what the pending access returned.
    pub fn resume(self, seen: usize) -> (next: NotifyOne)
        ensures
            next == self.resumed(seen),
    {
        match self {
            NotifyOne::Bump => NotifyOne::Wake,
            NotifyOne::Wake => NotifyOne::Done,
            NotifyOne::Done => NotifyOne::Done,
        }
    }
}

/// Where a thread stands inside `notify_all`.
#[derive(Clone, Copy, Debug, PartialEq, Eq, Structural)]
pub enum NotifyAll {
    /// About to look which mutex the condition variable is bound to.
    Look,
    /// It is bound to the mutex whose word is at `to`: about to advance the
    /// generation.
    Bump { to: usize },
    /// About to wake one thread blocked on the generation and to move all
    /// others over to the word of the mutex.
    Move { to: usize },
    /// Nothing is left to do.
    Done,
}

impl NotifyAll {
    /// The state in which `notify_all` begins.
    pub open spec fn begun() -> NotifyAll {
        NotifyAll::Look
    }

    /// The access that a thread in this state makes next.
    pub open spec fn pending(self) -> Option<Action> {
        match self {
            NotifyAll::Look => Some(Action::Load { place: Place::Bound, order: Memord::Acquire }),
            NotifyAll::Bump { .. } => Some(
                Action::FetchAdd { place: Place::Epoch, value: 1, order: Memord::Relaxed },
            ),
            NotifyAll::Move { to } => Some(
                Action::Requeue { place: Place::Epoch, wake: 1, requeue: usize::MAX, target: to },
            ),
            NotifyAll::Done => None,
        }
    }

    /// The state after the pending access returned `seen`. A condition
    /// variable that was never bound has never been waited on, and there is
    /// nothing to do.
    pub open spec fn resumed(self, seen: usize) -> NotifyAll {
        match self {
            NotifyAll::Look => if seen == 0 {
                NotifyAll::Done
            } else {
                NotifyAll::Bump { to: seen }
            },
            NotifyAll::Bump { to } => NotifyAll::Move { to },
            NotifyAll::Move { .. } => NotifyAll::Done,
            NotifyAll::Done => NotifyAll::Done,
        }
    }

    /// Begins `notify_all`.
    pub fn start() -> (at: NotifyAll)
        ensures
            at == NotifyAll::begun(),
    {
        NotifyAll::Look
    }

    /// The access to make next.
    pub fn action(&self) -> (a: Option<Action>)
        ensures
            a == self.pending(),
    {
        match self {
            NotifyAll::Look => Some(Action::Load { place: Place::Bound, order: Memord::Acquire }),
            NotifyAll::Bump { .. } => Some(
                Action::FetchAdd { place: Place::Epoch, value: 1, order: Memord::Relaxed },
            ),
            NotifyAll::Move { to } => Some(
                Action::Requeue {
                    place: Place::Epoch,
                    wake: 1,
                    requeue: usize::MAX,
                    target: *to,
                },
            ),
            NotifyAll::Done => None,
        }
    }

    /// Moves on from what the pending access returned.
    pub fn resume(self, seen: usize) -> (next: NotifyAll)
        ensures
            next == self.resumed(seen),
    {
        match self {
            NotifyAll::Look => if seen == 0 {
                NotifyAll::Done
            } else {
                NotifyAll::Bump { to: seen }
            },
            NotifyAll::Bump { to } => NotifyAll::Move { to },
            NotifyAll::Move { .. } => NotifyAll::Done,
            NotifyAll::Done => NotifyAll::Done,
        }
    }
}

/// A condition variable: a generation that every notification advances, and
/// the address of the word of the one mutex it is used with, zero until the
/// first `wait`.
#[derive(Clone, Copy, Debug, PartialEq, Eq, Structural)]
pub struct CondVar {
    pub ptr: usize,
    pub seq: u32,
}

impl CondVar {
    /// The condition variable that results when `a` is performed, and what
    /// the thread gets to see; actions on other places leave it alone.
    pub open spec fn after(self, a: Action) -> (CondVar, usize) {
        if a.touches(Place::Bound) {
            (CondVar { ptr: wide_after(self.ptr, a), ..self }, wide_seen(self.ptr, a))
        } else if a.touches(Place::Epoch) {
            (CondVar { seq: word_after(self.seq, a), ..self }, word_seen(self.seq, a))
        } else {
            (self, 0)
        }
    }

    /// The condition variable, the word of the mutex and the thread's state
    /// after the thread at `at` has taken its next step of `wait`.
    pub open spec fn wait_step(self, word: u32, at: Wait) -> (CondVar, u32, Wait) {
        match at.pending() {
            Some(a) => if a.touches(Place::Mutex) {
                (self, word_after(word, a), at.resumed(word_seen(word, a)))
            } else {
                (self.after(a).0, word, at.resumed(self.after(a).1))
            },
            None => (self, word, at),
        }
    }

    /// The condition variable and the thread's state after the thread at
    /// `at` has taken its next step of `notify_one`.
    pub open spec fn notify_one_step(self, at: NotifyOne) -> (CondVar, NotifyOne) {
        match at.pending() {
            Some(a) => (self.after(a).0, at.resumed(self.after(a).1)),
            None => (self, at),
        }
    }

    /// The same for `notify_all`.
    pub open spec fn notify_all_step(self, at: NotifyAll) -> (CondVar, NotifyAll) {
        match at.pending() {
            Some(a) => (self.after(a).0, at.resumed(self.after(a).1)),
            None => (self, at),
        }
    }

    /// A condition variable bound to no mutex.
    pub fn new() -> (c: CondVar)
        ensures
            c == (CondVar { ptr: 0, seq: 0 }),
    {
        CondVar { ptr: 0, seq: 0 }
    }

    fn perform(&mut self, a: Action) -> (seen: usize)
        ensures
            *final(self) == old(self).after(a).0,
            seen == old(self).after(a).1,
    {
        match a.place() {
            Some(Place::Bound) => access_wide(&mut self.ptr, a),
            Some(Place::Epoch) => access(&mut self.seq, a),
            _ => 0,
        }
    }

    /// One step of `wait` by a thread that stands at `at` and that held `m`
    /// when it began. A thread begins at `Wait::start(mutex)`, with the
    /// address of the word of `m`, and is back from `wait`, holding `m`
    /// again, at `Wait::Woken`.
    pub fn wait(&mut self, m: &mut Mutex, at: Wait) -> (next: Wait)
        ensures
            *final(self) == old(self).wait_step(old(m).word, at).0,
            final(m).word == old(self).wait_step(old(m).word, at).1,
            next == old(self).wait_step(old(m).word, at).2,
    {
        match at.action() {
            Some(a) => {
                let seen: usize = match a.place() {
                    Some(Place::Mutex) => access(&mut m.word, a),
                    _ => self.perform(a),
                };
                at.resume(seen)
            },
            None => at,
        }
    }

    /// One step of `notify_one` by a thread that stands at `at`. A thread
    /// begins at `NotifyOne::start()`.
    pub fn notify_one(&mut self, at: NotifyOne) -> (next: NotifyOne)
        ensures
            *final(self) == old(self).notify_one_step(at).0,
            next == old(self).notify_one_step(at).1,
    {
        match at.action() {
            Some(a) => {
                let seen: usize = self.perform(a);
                at.resume(seen)
            },
            None => at,
        }
    }

    /// One step of `notify_all` by a thread that stands at `at`. A thread
    /// begins at `NotifyAll::start()`.
    pub fn notify_all(&mut self, at: NotifyAll) -> (next: NotifyAll)
        ensures
            *final(self) == old(self).notify_all_step(at).0,
            next == old(self).notify_all_step(at).1,
    {
        match at.action() {
            Some(a) => {
                let seen: usize = self.perform(a);
                at.resume(seen)
            },
            None => at,
        }
    }
}

} // verus!
