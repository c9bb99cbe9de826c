use vstd::prelude::*;

verus! {

/// The bit of an async mutex's lock word that says the mutex is held.
pub const LOCKED: usize = 1;

/// What each starving waiter adds to the lock word while it waits.
pub const STARVING: usize = 2;

/// An atomic read-modify-write on the lock word. Each returns the value
/// the word had before it (a failed compare-exchange returns the value it
/// found, as `unwrap_or_else(|x| x)` does).
#[derive(Clone, Copy, Debug, PartialEq, Eq, Structural)]
pub enum AtomicOp {
    CompareExchange { current: usize, new: usize },
    FetchAdd(usize),
    FetchSub(usize),
    FetchOr(usize),
}

/// The value of the word after `op` on a word holding `v`; adding and
/// subtracting wrap around, as atomics do.
pub open spec fn op_result(op: AtomicOp, v: usize) -> usize {
    match op {
        AtomicOp::CompareExchange { current, new } => if v == current { new } else { v },
        AtomicOp::FetchAdd(d) => if v + d > usize::MAX { (v + d - usize::MAX - 1) as usize } else { (v + d) as usize },
        AtomicOp::FetchSub(d) => if v - d < 0 { (v - d + usize::MAX + 1) as usize } else { (v - d) as usize },
        AtomicOp::FetchOr(d) => v | d,
    }
}

/// The lock word of an async mutex, as one thread sees it change under its
/// own operations: `LOCKED` when held, plus `STARVING` for every waiter
/// that gave up spinning and registered itself as starving.
pub struct LockWord {
    value: usize,
}

impl LockWord {
    pub closed spec fn spec_value(&self) -> usize {
        self.value
    }

    /// A free mutex with no waiter.
    pub fn new() -> (w: Self)
        ensures
            w.spec_value() == 0,
    {
        LockWord { value: 0 }
    }

    /// The current value of the word.
    pub fn load(&self) -> (v: usize)
        ensures
            v == self.spec_value(),
    {
        self.value
    }

    /// Performs `op` and returns the value the word had before.
    pub fn apply(&mut self, op: AtomicOp) -> (observed: usize)
        ensures
            observed == old(self).spec_value(),
            final(self).spec_value() == op_result(op, old(self).spec_value()),
    {
        let v = self.value;
        let n = match op {
            AtomicOp::CompareExchange { current, new } => if v == current { new } else { v },
            AtomicOp::FetchAdd(d) => v.wrapping_add(d),
            AtomicOp::FetchSub(d) => v.wrapping_sub(d),
            AtomicOp::FetchOr(d) => v | d,
        };
        self.value = n;
        v
    }

    /// Tries to take the mutex without waiting: succeeds, setting
    /// `LOCKED`, exactly when the word is 0 (free and nobody starving).
    pub fn try_lock(&mut self) -> (ok: bool)
        ensures
            ok == (old(self).spec_value() == 0),
            final(self).spec_value() == if ok { LOCKED } else { old(self).spec_value() },
    {
        let observed = self.apply(try_lock_op());
        observed == 0
    }

    /// Releases the mutex (what dropping the guard does; the caller then
    /// wakes one waiter): clears `LOCKED`.
    pub fn unlock(&mut self)
        requires
            old(self).spec_value() % 2 == 1,
        ensures
            final(self).spec_value() == old(self).spec_value() - LOCKED,
    {
        self.apply(AtomicOp::FetchSub(LOCKED));
    }
}

/// The operation of a lock attempt without waiting: set `LOCKED` if the
/// word is 0.
pub fn try_lock_op() -> (op: AtomicOp)
    ensures
        op == try_lock_op_spec(),
{
    AtomicOp::CompareExchange { current: 0, new: LOCKED }
}

/// Where a waiter on the slow path of `lock` stands.
#[derive(Clone, Copy, Debug, PartialEq, Eq, Structural)]
pub enum SlowStage {
    /// First phase, top of the loop: listen, then try to take a free mutex.
    Try,
    /// First phase, woken up: try again.
    Retry,
    /// Register as a starving waiter.
    Starve,
    /// Second phase, top of the loop: listen, then take the mutex if only
    /// starving waiters are left and it is not held.
    StarvingTry,
    /// Second phase, woken up: take the mutex if it is not held.
    StarvingRetry,
}

/// What the waiter does after one step of the slow path.
#[derive(Clone, Copy, Debug, PartialEq, Eq, Structural)]
pub enum SlowNext {
    /// Go on at `stage`, after waiting for a notification when `wait`.
    Continue { stage: SlowStage, wait: bool },
    /// The mutex is taken. A starving waiter then takes its `STARVING` back
    /// off the word (`FetchSub(STARVING)`).
    Acquired { starving: bool },
    /// The starving count is about to overflow: the waiter panics.
    Overflow,
}

/// One step of the slow path: what to do next, and whether to wake one
/// other waiter first.
#[derive(Clone, Copy, Debug, PartialEq, Eq, Structural)]
pub struct SlowStep {
    pub next: SlowNext,
    pub notify: bool,
}

/// The atomic operation a waiter performs at `stage`.
pub open spec fn spec_stage_op(stage: SlowStage) -> AtomicOp {
    match stage {
        SlowStage::Try => AtomicOp::CompareExchange { current: 0, new: LOCKED },
        SlowStage::Retry => AtomicOp::CompareExchange { current: 0, new: LOCKED },
        SlowStage::Starve => AtomicOp::FetchAdd(STARVING),
        SlowStage::StarvingTry => AtomicOp::CompareExchange { current: STARVING, new: STARVING | LOCKED },
        SlowStage::StarvingRetry => AtomicOp::FetchOr(LOCKED),
    }
}

/// The next step of a waiter at `stage` whose operation found the word
/// holding `observed`.
pub open spec fn spec_slow_step(stage: SlowStage, observed: usize) -> SlowStep {
    match stage {
        SlowStage::Try => if observed == 0 {
            SlowStep { next: SlowNext::Acquired { starving: false }, notify: false }
        } else if observed == 1 {
            SlowStep { next: SlowNext::Continue { stage: SlowStage::Retry, wait: true }, notify: false }
        } else {
            SlowStep { next: SlowNext::Continue { stage: SlowStage::Starve, wait: false }, notify: false }
        },
        SlowStage::Retry => if observed == 0 {
            SlowStep { next: SlowNext::Acquired { starving: false }, notify: false }
        } else if observed == 1 {
            SlowStep { next: SlowNext::Continue { stage: SlowStage::Try, wait: false }, notify: false }
        } else {
            SlowStep { next: SlowNext::Continue { stage: SlowStage::Starve, wait: false }, notify: true }
        },
        SlowStage::Starve => if observed > usize::MAX / 2 {
            SlowStep { next: SlowNext::Overflow, notify: false }
        } else {
            SlowStep { next: SlowNext::Continue { stage: SlowStage::StarvingTry, wait: false }, notify: false }
        },
        SlowStage::StarvingTry => if observed == 2 {
            SlowStep { next: SlowNext::Acquired { starving: true }, notify: false }
        } else if observed % 2 == 1 {
            SlowStep { next: SlowNext::Continue { stage: SlowStage::StarvingRetry, wait: true }, notify: false }
        } else {
            SlowStep { next: SlowNext::Continue { stage: SlowStage::StarvingRetry, wait: true }, notify: true }
        },
        SlowStage::StarvingRetry => if observed % 2 == 0 {
            SlowStep { next: SlowNext::Acquired { starving: true }, notify: false }
        } else {
            SlowStep { next: SlowNext::Continue { stage: SlowStage::StarvingTry, wait: false }, notify: false }
        },
    }
}

/// The atomic operation a waiter performs at `stage`.
pub fn stage_op(stage: SlowStage) -> (op: AtomicOp)
    ensures
        op == spec_stage_op(stage),
{
    match stage {
        SlowStage::Try => AtomicOp::CompareExchange { current: 0, new: LOCKED },
        SlowStage::Retry => AtomicOp::CompareExchange { current: 0, new: LOCKED },
        SlowStage::Starve => AtomicOp::FetchAdd(STARVING),
        SlowStage::StarvingTry => AtomicOp::CompareExchange { current: STARVING, new: STARVING | LOCKED },
        SlowStage::StarvingRetry => AtomicOp::FetchOr(LOCKED),
    }
}

/// The decisions of the slow path of `lock`: a waiter at `stage`, whose
/// operation (`stage_op(stage)`) found the word holding `observed`, learns
/// what to do next.
pub fn slow_step(stage: SlowStage, observed: usize) -> (step: SlowStep)
    ensures
        step == spec_slow_step(stage, observed),
{
    match stage {
        SlowStage::Try => if observed == 0 {
            SlowStep { next: SlowNext::Acquired { starving: false }, notify: false }
        } else if observed == 1 {
            SlowStep { next: SlowNext::Continue { stage: SlowStage::Retry, wait: true }, notify: false }
        } else {
            SlowStep { next: SlowNext::Continue { stage: SlowStage::Starve, wait: false }, notify: false }
        },
        SlowStage::Retry => if observed == 0 {
            SlowStep { next: SlowNext::Acquired { starving: false }, notify: false }
        } else if observed == 1 {
            SlowStep { next: SlowNext::Continue { stage: SlowStage::Try, wait: false }, notify: false }
        } else {
            SlowStep { next: SlowNext::Continue { stage: SlowStage::Starve, wait: false }, notify: true }
        },
        SlowStage::Starve => if observed > usize::MAX / 2 {
            SlowStep { next: SlowNext::Overflow, notify: false }
        } else {
            SlowStep { next: SlowNext::Continue { stage: SlowStage::StarvingTry, wait: false }, notify: false }
        },
        SlowStage::StarvingTry => if observed == 2 {
            SlowStep { next: SlowNext::Acquired { starving: true }, notify: false }
        } else if observed % 2 == 1 {
            SlowStep { next: SlowNext::Continue { stage: SlowStage::StarvingRetry, wait: true }, notify: false }
        } else {
            SlowStep { next: SlowNext::Continue { stage: SlowStage::StarvingRetry, wait: true }, notify: true }
        },
        SlowStage::StarvingRetry => if observed % 2 == 0 {
            SlowStep { next: SlowNext::Acquired { starving: true }, notify: false }
        } else {
            SlowStep { next: SlowNext::Continue { stage: SlowStage::StarvingTry, wait: false }, notify: false }
        },
    }
}

/// The lock word of a mutex of which `held` guards are alive and `starving`
/// waiters are registered as starving: `LOCKED` once per guard, `STARVING`
/// once per such waiter, and never more than one guard.
pub open spec fn word_matches(w: usize, held: nat, starving: nat) -> bool {
    &&& held <= 1
    &&& w == held * LOCKED + starving * STARVING
}

/// Mutual exclusion across waiters: whatever other waiters, guards and
/// starving registrations the word accounts for, one step of a waiter on
/// the slow path keeps the word accounting for them. It takes the mutex
/// only when no guard is alive, and then makes itself the one guard;
/// registering as starving adds one starving waiter; every other step
/// changes nothing that the word accounts for.
pub proof fn lemma_slow_step_keeps_exclusion(stage: SlowStage, w: usize, held: nat, starving: nat)
    requires
        word_matches(w, held, starving),
        spec_slow_step(stage, w).next !is Overflow,
        (stage == SlowStage::StarvingTry || stage == SlowStage::StarvingRetry) ==> starving >= 1,
    ensures
        ({
            let w2 = op_result(spec_stage_op(stage), w);
            match spec_slow_step(stage, w).next {
                SlowNext::Acquired { starving: _ } => held == 0 && word_matches(w2, 1, starving),
                _ => if stage == SlowStage::Starve {
                    word_matches(w2, held, starving + 1)
                } else {
                    word_matches(w2, held, starving)
                },
            }
        }),
{
    assert((2usize | 1usize) == 3) by (bit_vector);
    assert(w % 2 == 0 ==> (w | 1usize) == w + 1) by (bit_vector);
    assert(w % 2 == 1 ==> (w | 1usize) == w) by (bit_vector);
}

/// Releasing the guard makes the mutex free for the others; a starving
/// waiter that took the mutex, or that is dropped while it waits, takes
/// its registration back off the word.
pub proof fn lemma_release_keeps_exclusion(w: usize, held: nat, starving: nat)
    requires
        word_matches(w, held, starving),
    ensures
        held == 1 ==> word_matches(op_result(AtomicOp::FetchSub(LOCKED), w), 0, starving),
        starving >= 1 ==> word_matches(op_result(AtomicOp::FetchSub(STARVING), w), held, (starving - 1) as nat),
{
}

/// Taking the mutex without waiting succeeds only when no guard is alive
/// and nobody starves, and then makes the one guard; once every guard is
/// dropped and no waiter is registered (each completed or dropped waiter
/// having taken its registration back), it succeeds.
pub proof fn lemma_try_lock_keeps_exclusion(w: usize, held: nat, starving: nat)
    requires
        word_matches(w, held, starving),
    ensures
        w == 0 ==> held == 0 && word_matches(op_result(try_lock_op_spec(), w), 1, starving),
        w != 0 ==> op_result(try_lock_op_spec(), w) == w,
        (held == 0 && starving == 0) ==> w == 0,
{
}

/// The operation of a lock attempt without waiting.
pub open spec fn try_lock_op_spec() -> AtomicOp {
    AtomicOp::CompareExchange { current: 0, new: LOCKED }
}

/// A waiter that takes the mutex takes its starving registration back
/// exactly when it made one: an acquisition reports `starving` exactly in
/// the second phase (`StarvingTry`, `StarvingRetry`), entered only after
/// `Starve` added `STARVING` to the word; a first-phase acquisition
/// (`Try`, `Retry`) reports none, so nothing is taken off the word.
pub proof fn lemma_acquired_starving_iff_registered(stage: SlowStage, observed: usize)
    ensures
        spec_slow_step(stage, observed).next matches SlowNext::Acquired { starving }
            ==> starving == (stage == SlowStage::StarvingTry || stage == SlowStage::StarvingRetry),
        spec_slow_step(stage, observed).next matches SlowNext::Continue { stage: next, wait: _ }
            ==> ((next == SlowStage::StarvingTry || next == SlowStage::StarvingRetry)
                <==> (stage == SlowStage::Starve || stage == SlowStage::StarvingTry || stage == SlowStage::StarvingRetry)),
{
}

/// Mutual exclusion on the slow path: a waiter takes the mutex only at a
/// step whose own operation found `LOCKED` clear and left it set.
pub proof fn lemma_acquire_sets_locked(stage: SlowStage, observed: usize)
    requires
        spec_slow_step(stage, observed).next is Acquired,
    ensures
        observed % 2 == 0,
        op_result(spec_stage_op(stage), observed) % 2 == 1,
{
    assert((2usize | 1usize) == 3) by (bit_vector);
    if stage == SlowStage::StarvingRetry {
        assert(observed % 2 == 0 ==> (observed | 1usize) % 2 == 1) by (bit_vector);
    }
}

/// Registering as a starving waiter never wraps the word around: the
/// waiter panics instead of adding `STARVING` to a word above half the
/// range, so the later `FetchSub(STARVING)` takes back exactly what it
/// added.
pub proof fn lemma_starving_round_trip(observed: usize)
    requires
        spec_slow_step(SlowStage::Starve, observed).next !is Overflow,
    ensures
        op_result(AtomicOp::FetchSub(STARVING), op_result(AtomicOp::FetchAdd(STARVING), observed)) == observed,
        op_result(AtomicOp::FetchAdd(STARVING), observed) == observed + STARVING,
{
}

/// Taking the mutex without waiting and releasing it leaves the word as it
/// was.
pub proof fn lemma_try_lock_unlock(v: usize)
    requires
        v == 0,
    ensures
        op_result(AtomicOp::FetchSub(LOCKED), op_result(AtomicOp::CompareExchange { current: 0, new: LOCKED }, v)) == v,
{
}

/// One thing that some task does to a mutex's lock word: a step of a
/// waiter on the slow path, a lock attempt without waiting, dropping a
/// guard, or a starving waiter taking its registration back (when it took
/// the mutex, or when it is dropped while waiting).
pub enum MutexEvent {
    Slow(SlowStage),
    TryLock,
    Unlock,
    Withdraw,
}

/// `e` takes the word from `w` to `w2`, the guards alive from `held` to
/// `held2` and the starving registrations from `starving` to `starving2`.
/// Only a guard holder unlocks, only a registered waiter withdraws or runs
/// the starving stages, and a waiter about to overflow the word panics
/// instead of stepping.
pub open spec fn mutex_step(e: MutexEvent, w: usize, held: nat, starving: nat, w2: usize, held2: nat, starving2: nat) -> bool {
    match e {
        MutexEvent::Slow(stage) => {
            &&& (stage == SlowStage::StarvingTry || stage == SlowStage::StarvingRetry) ==> starving >= 1
            &&& w2 == op_result(spec_stage_op(stage), w)
            &&& match spec_slow_step(stage, w).next {
                SlowNext::Acquired { starving: _ } => held2 == held + 1 && starving2 == starving,
                SlowNext::Continue { stage: _, wait: _ } => held2 == held && starving2 == if stage == SlowStage::Starve {
                    starving + 1
                } else {
                    starving
                },
                SlowNext::Overflow => false,
            }
        },
        MutexEvent::TryLock => {
            &&& w2 == op_result(try_lock_op_spec(), w)
            &&& held2 == if w == 0 { held + 1 } else { held }
            &&& starving2 == starving
        },
        MutexEvent::Unlock => {
            &&& held >= 1
            &&& w2 == op_result(AtomicOp::FetchSub(LOCKED), w)
            &&& held2 == held - 1
            &&& starving2 == starving
        },
        MutexEvent::Withdraw => {
            &&& starving >= 1
            &&& w2 == op_result(AtomicOp::FetchSub(STARVING), w)
            &&& held2 == held
            &&& starving2 == starving - 1
        },
    }
}

proof fn lemma_mutex_trace_upto(events: Seq<MutexEvent>, ws: Seq<usize>, helds: Seq<nat>, starvings: Seq<nat>, i: int)
    requires
        ws.len() == events.len() + 1,
        helds.len() == events.len() + 1,
        starvings.len() == events.len() + 1,
        ws[0] == 0,
        helds[0] == 0,
        starvings[0] == 0,
        forall|k: int| #![trigger events[k]] 0 <= k < events.len()
            ==> mutex_step(events[k], ws[k], helds[k], starvings[k], ws[k + 1], helds[k + 1], starvings[k + 1]),
        0 <= i <= events.len(),
    ensures
        word_matches(ws[i], helds[i], starvings[i]),
    decreases i,
{
    if i > 0 {
        lemma_mutex_trace_upto(events, ws, helds, starvings, i - 1);
        let k = i - 1;
        let _ = events[k];
        match events[k] {
            MutexEvent::Slow(stage) => {
                lemma_slow_step_keeps_exclusion(stage, ws[k], helds[k], starvings[k]);
            },
            MutexEvent::TryLock => {
                lemma_try_lock_keeps_exclusion(ws[k], helds[k], starvings[k]);
            },
            _ => {
                lemma_release_keeps_exclusion(ws[k], helds[k], starvings[k]);
            },
        }
    }
}

/// Mutual exclusion and cancel safety over any interleaving: whatever
/// tasks do to a fresh mutex, in whatever order, at every point at most one
/// guard is alive, every lock attempt and every slow-path step that takes
/// the mutex does so while no guard is alive, and once every guard is
/// dropped and every starving waiter (completed or dropped) has taken its
/// registration back, the word is 0, so a lock attempt succeeds.
pub proof fn lemma_mutex_trace(events: Seq<MutexEvent>, ws: Seq<usize>, helds: Seq<nat>, starvings: Seq<nat>)
    requires
        ws.len() == events.len() + 1,
        helds.len() == events.len() + 1,
        starvings.len() == events.len() + 1,
        ws[0] == 0,
        helds[0] == 0,
        starvings[0] == 0,
        forall|k: int| #![trigger events[k]] 0 <= k < events.len()
            ==> mutex_step(events[k], ws[k], helds[k], starvings[k], ws[k + 1], helds[k + 1], starvings[k + 1]),
    ensures
        forall|i: int| 0 <= i <= events.len() ==> #[trigger] helds[i] <= 1,
        forall|k: int| 0 <= k < events.len() && #[trigger] helds[k + 1] > helds[k] ==> helds[k] == 0,
        forall|i: int| 0 <= i <= events.len() && #[trigger] helds[i] == 0 && starvings[i] == 0 ==> ws[i] == 0,
{
    assert forall|i: int| 0 <= i <= events.len() implies #[trigger] helds[i] <= 1 by {
        lemma_mutex_trace_upto(events, ws, helds, starvings, i);
    }
    assert forall|k: int| 0 <= k < events.len() && #[trigger] helds[k + 1] > helds[k] implies helds[k] == 0 by {
        lemma_mutex_trace_upto(events, ws, helds, starvings, k + 1);
    }
    assert forall|i: int| 0 <= i <= events.len() && #[trigger] helds[i] == 0 && starvings[i] == 0 implies ws[i] == 0 by {
        lemma_mutex_trace_upto(events, ws, helds, starvings, i);
    }
}

} // verus!
