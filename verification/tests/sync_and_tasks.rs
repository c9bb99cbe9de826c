use hurricane::async_mutex::{slow_step, stage_op, try_lock_op, AtomicOp, LockWord, SlowNext, SlowStage, SlowStep, LOCKED, STARVING};
use hurricane::fib::FibonacciFuture;
use hurricane::mod_mgmt::{Module, ModuleType};

#[test]
fn lock_word_try_lock_and_unlock() {
    let mut w = LockWord::new();
    assert!(w.try_lock());
    assert_eq!(w.load(), LOCKED);
    assert!(!w.try_lock());
    w.unlock();
    assert_eq!(w.load(), 0);
    assert_eq!(try_lock_op(), AtomicOp::CompareExchange { current: 0, new: 1 });
}

#[test]
fn atomic_ops_return_old_value() {
    let mut w = LockWord::new();
    assert_eq!(w.apply(AtomicOp::FetchAdd(2)), 0);
    assert_eq!(w.apply(AtomicOp::FetchOr(1)), 2);
    assert_eq!(w.apply(AtomicOp::CompareExchange { current: 0, new: 1 }), 3);
    assert_eq!(w.load(), 3);
    assert_eq!(w.apply(AtomicOp::FetchSub(3)), 3);
    assert_eq!(w.apply(AtomicOp::FetchSub(1)), 0);
    assert_eq!(w.load(), usize::MAX);
}

/// Runs one waiter's slow path against a word that nobody else touches.
fn run_slow_path(w: &mut LockWord) -> (bool, usize) {
    let mut stage = SlowStage::Try;
    for _ in 0..10 {
        let observed = w.apply(stage_op(stage));
        let step = slow_step(stage, observed);
        match step.next {
            SlowNext::Acquired { starving } => {
                if starving {
                    w.apply(AtomicOp::FetchSub(STARVING));
                }
                return (starving, w.load());
            }
            SlowNext::Continue { stage: s, .. } => stage = s,
            SlowNext::Overflow => panic!("overflow"),
        }
    }
    panic!("no progress");
}

#[test]
fn slow_path_takes_free_mutex() {
    let mut w = LockWord::new();
    assert_eq!(run_slow_path(&mut w), (false, 1));
}

#[test]
fn slow_path_steps() {
    assert_eq!(slow_step(SlowStage::Try, 1), SlowStep { next: SlowNext::Continue { stage: SlowStage::Retry, wait: true }, notify: false });
    assert_eq!(slow_step(SlowStage::Try, 4), SlowStep { next: SlowNext::Continue { stage: SlowStage::Starve, wait: false }, notify: false });
    assert_eq!(slow_step(SlowStage::Retry, 3), SlowStep { next: SlowNext::Continue { stage: SlowStage::Starve, wait: false }, notify: true });
    assert_eq!(slow_step(SlowStage::Retry, 1), SlowStep { next: SlowNext::Continue { stage: SlowStage::Try, wait: false }, notify: false });
    assert_eq!(slow_step(SlowStage::Starve, usize::MAX / 2 + 1), SlowStep { next: SlowNext::Overflow, notify: false });
    assert_eq!(slow_step(SlowStage::StarvingTry, 2), SlowStep { next: SlowNext::Acquired { starving: true }, notify: false });
    assert_eq!(slow_step(SlowStage::StarvingTry, 5), SlowStep { next: SlowNext::Continue { stage: SlowStage::StarvingRetry, wait: true }, notify: false });
    assert_eq!(slow_step(SlowStage::StarvingTry, 4), SlowStep { next: SlowNext::Continue { stage: SlowStage::StarvingRetry, wait: true }, notify: true });
    assert_eq!(slow_step(SlowStage::StarvingRetry, 4), SlowStep { next: SlowNext::Acquired { starving: true }, notify: false });
    assert_eq!(slow_step(SlowStage::StarvingRetry, 5), SlowStep { next: SlowNext::Continue { stage: SlowStage::StarvingTry, wait: false }, notify: false });
    assert_eq!(stage_op(SlowStage::StarvingTry), AtomicOp::CompareExchange { current: 2, new: 3 });
    assert_eq!(stage_op(SlowStage::StarvingRetry), AtomicOp::FetchOr(1));
    assert_eq!(stage_op(SlowStage::Starve), AtomicOp::FetchAdd(2));
}

#[test]
fn starving_waiter_takes_released_mutex() {
    // another starving waiter is registered and the mutex is held: 2 + 1
    let mut w = LockWord::new();
    w.apply(AtomicOp::FetchAdd(3));
    let observed = w.apply(stage_op(SlowStage::Try));
    assert_eq!(slow_step(SlowStage::Try, observed).next, SlowNext::Continue { stage: SlowStage::Starve, wait: false });
    let observed = w.apply(stage_op(SlowStage::Starve));
    assert_eq!(observed, 3);
    assert_eq!(w.load(), 5);
    // the holder releases and the other waiter gives up
    w.apply(AtomicOp::FetchSub(LOCKED));
    w.apply(AtomicOp::FetchSub(STARVING));
    let observed = w.apply(stage_op(SlowStage::StarvingTry));
    assert_eq!(slow_step(SlowStage::StarvingTry, observed).next, SlowNext::Acquired { starving: true });
    w.apply(AtomicOp::FetchSub(STARVING));
    assert_eq!(w.load(), LOCKED);
}

fn run_fib(count: usize) -> (usize, usize) {
    let mut f = FibonacciFuture::new(count);
    let mut pending = 0;
    loop {
        match f.poll() {
            Some(v) => return (v, pending),
            None => pending += 1,
        }
    }
}

#[test]
fn fibonacci_future_results() {
    assert_eq!(run_fib(0), (0, 0));
    assert_eq!(run_fib(1), (1, 1));
    assert_eq!(run_fib(11), (89, 11));
    assert_eq!(run_fib(50), (12586269025, 50));
}

#[test]
fn fibonacci_future_stays_ready() {
    let mut f = FibonacciFuture::new(2);
    assert_eq!(f.poll(), None);
    assert_eq!(f.poll(), None);
    assert_eq!(f.poll(), Some(1));
    assert_eq!(f.poll(), Some(1));
}

#[test]
fn module_types_are_ordered_block_first() {
    assert!(ModuleType::Block < ModuleType::Other);
    assert_eq!(ModuleType::Block.number(), 0);
    assert_eq!(ModuleType::Other.number(), 1);
    let m = Module { init: 0x1000, ty: ModuleType::Other };
    assert_eq!(m.ty, ModuleType::Other);
}

#[test]
fn two_waiters_never_hold_the_mutex_together() {
    let mut w = LockWord::new();
    // A holds the mutex; B's slow path keeps trying and cannot take it
    assert!(w.try_lock());
    let mut b = SlowStage::Try;
    let mut b_holds = false;
    for _ in 0..4 {
        let observed = w.apply(stage_op(b));
        match slow_step(b, observed).next {
            SlowNext::Acquired { .. } => b_holds = true,
            SlowNext::Continue { stage, .. } => b = stage,
            SlowNext::Overflow => panic!("overflow"),
        }
        assert!(!b_holds);
    }
    assert_eq!(w.load(), LOCKED);
    // A releases; B takes the mutex at its next step
    w.unlock();
    let observed = w.apply(stage_op(b));
    assert!(matches!(slow_step(b, observed).next, SlowNext::Acquired { starving: false }));
    assert_eq!(w.load(), LOCKED);
    assert!(!w.try_lock());
    w.unlock();
    assert!(w.try_lock());
}

#[test]
fn starving_waiter_registration_is_accounted_and_taken_back() {
    let mut w = LockWord::new();
    // another waiter is registered as starving while the mutex is held
    w.apply(AtomicOp::FetchAdd(STARVING));
    assert!(!w.try_lock());
    w.apply(AtomicOp::FetchOr(LOCKED));
    assert_eq!(w.load(), LOCKED + STARVING);
    // a new waiter sees starving waiters and registers too
    let observed = w.apply(stage_op(SlowStage::Try));
    assert_eq!(slow_step(SlowStage::Try, observed).next, SlowNext::Continue { stage: SlowStage::Starve, wait: false });
    w.apply(stage_op(SlowStage::Starve));
    assert_eq!(w.load(), LOCKED + 2 * STARVING);
    // both starving waiters are dropped, the guard is released: the mutex is free
    w.apply(AtomicOp::FetchSub(STARVING));
    w.apply(AtomicOp::FetchSub(STARVING));
    w.unlock();
    assert!(w.try_lock());
}
