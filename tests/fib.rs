use drone_core::fib::Chain;
use drone_core::fib::Fiber;
use drone_core::fib::FiberState;
use drone_core::fib::PollRecord;

/// Yields the given number of times, then completes.
struct Countdown(u32);

impl Fiber for Countdown {
    fn resume(&mut self) -> FiberState {
        if self.0 == 0 {
            FiberState::Complete
        } else {
            self.0 -= 1;
            FiberState::Yielded
        }
    }
}

fn rec(id: u64, state: FiberState) -> PollRecord {
    PollRecord { id, state }
}

#[test]
fn two_fibers_over_two_passes() {
    let mut chain = Chain::new();
    let f1 = chain.add(Countdown(1)).ok().unwrap();
    let f2 = chain.add(Countdown(0)).ok().unwrap();
    let pass1 = chain.dispatch();
    assert_eq!(pass1, vec![rec(f1, FiberState::Yielded), rec(f2, FiberState::Complete)]);
    assert_eq!(chain.fiber_ids(), vec![f1]);
    let pass2 = chain.dispatch();
    assert_eq!(pass2, vec![rec(f1, FiberState::Complete)]);
    assert!(chain.is_empty());
    assert_eq!(chain.dispatch(), vec![]);
}

#[test]
fn ids_follow_insertion_order() {
    let mut chain = Chain::new();
    let a = chain.add(Countdown(2)).ok().unwrap();
    let b = chain.add(Countdown(0)).ok().unwrap();
    let c = chain.add(Countdown(1)).ok().unwrap();
    assert_eq!((a, b, c), (0, 1, 2));
    assert_eq!(chain.len(), 3);
    assert_eq!(chain.fiber_ids(), vec![0, 1, 2]);
    let pass1 = chain.dispatch();
    assert_eq!(pass1, vec![rec(0, FiberState::Yielded), rec(1, FiberState::Complete), rec(2, FiberState::Yielded)]);
    let pass2 = chain.dispatch();
    assert_eq!(pass2, vec![rec(0, FiberState::Yielded), rec(2, FiberState::Complete)]);
    let pass3 = chain.dispatch();
    assert_eq!(pass3, vec![rec(0, FiberState::Complete)]);
    assert_eq!(chain.len(), 0);
}

#[test]
fn fiber_added_between_passes_goes_last() {
    let mut chain = Chain::new();
    chain.add(Countdown(1)).ok().unwrap();
    chain.dispatch();
    let late = chain.add(Countdown(0)).ok().unwrap();
    assert_eq!(late, 1);
    let pass = chain.dispatch();
    assert_eq!(pass, vec![rec(0, FiberState::Complete), rec(1, FiberState::Complete)]);
}

#[test]
fn walk_stops_after_max_polls() {
    let mut chain = Chain::new();
    for _ in 0..4 {
        chain.add(Countdown(1)).ok().unwrap();
    }
    chain.add(Countdown(0)).ok().unwrap();
    let (log, pos) = chain.walk(0, 2);
    assert_eq!(log, vec![rec(0, FiberState::Yielded), rec(1, FiberState::Yielded)]);
    assert_eq!(pos, 2);
    let (log, pos) = chain.walk(pos, 10);
    assert_eq!(log, vec![rec(2, FiberState::Yielded), rec(3, FiberState::Yielded), rec(4, FiberState::Complete)]);
    assert_eq!(pos, 4);
    assert_eq!(chain.fiber_ids(), vec![0, 1, 2, 3]);
    let (log, pos) = chain.walk(1, 2);
    assert_eq!(log, vec![rec(1, FiberState::Complete), rec(2, FiberState::Complete)]);
    assert_eq!(pos, 1);
    assert_eq!(chain.fiber_ids(), vec![0, 3]);
}

#[test]
fn walk_from_tail_polls_nothing() {
    let mut chain = Chain::new();
    chain.add(Countdown(0)).ok().unwrap();
    let (log, pos) = chain.walk(1, 5);
    assert!(log.is_empty());
    assert_eq!(pos, 1);
    let (log, _) = chain.walk(0, 0);
    assert!(log.is_empty());
    assert_eq!(chain.len(), 1);
}
