use drone_core::fib::Fiber;
use drone_core::fib::FiberState;
use drone_core::fib::PollRecord;
use drone_core::thr::DispatchError;
use drone_core::thr::PreemptedCell;
use drone_core::thr::Registry;
use drone_core::thr::RegistryError;
use drone_core::thr::TaskCell;
use drone_core::thr::TaskCellBusy;
use drone_core::thr::Thread;

struct Countdown(u32);

impl Fiber for Countdown {
    fn resume(&mut self) -> FiberState {
        if self.0 == 0 {
            FiberState::Complete
        } else {
            self.0 -= 1;
            FiberState::Yielded
        }
    }
}

#[derive(Debug, PartialEq)]
struct Shared {
    counter: u32,
}

#[derive(Debug, PartialEq)]
struct Local;

type Thr = Thread<Shared, Local, Countdown>;

fn rec(id: u64, state: FiberState) -> PollRecord {
    PollRecord { id, state }
}

#[test]
fn new_thread_starts_empty() {
    let mut thr = Thr::new(3, Shared { counter: 0 }, Local);
    assert_eq!(thr.index(), 3);
    assert_eq!(thr.shared().counter, 0);
    assert_eq!(thr.local(), &Local);
    assert!(thr.chain().is_empty());
    assert!(!thr.task().is_occupied());
    assert!(!thr.preempted().is_preempted());
    assert_eq!(thr.dispatch(), Ok(vec![]));
    assert_eq!(thr.shared().counter, 0);
    assert!(!thr.task().is_occupied());
}

#[test]
fn task_cell_holds_one_task() {
    let mut cell = TaskCell::new();
    assert_eq!(cell.occupancy(), 0);
    assert_eq!(cell.try_set(7), Ok(()));
    assert_eq!(cell.occupancy(), 1);
    assert_eq!(cell.try_set(8), Err(TaskCellBusy));
    assert_eq!(cell.occupancy(), 1);
    assert_eq!(cell.get(), Some(7));
    assert_eq!(cell.take(), Some(7));
    assert_eq!(cell.occupancy(), 0);
    assert_eq!(cell.take(), None);
}

#[test]
fn preempted_cell_records_position() {
    let mut cell = PreemptedCell::new();
    assert_eq!(cell.position(), None);
    cell.record(4);
    assert!(cell.is_preempted());
    assert_eq!(cell.take(), Some(4));
    assert!(!cell.is_preempted());
}

#[test]
fn interrupted_walk_resumes_where_it_stopped() {
    let mut thr = Thr::new(0, Shared { counter: 1 }, Local);
    thr.add_fiber(Countdown(1)).ok().unwrap();
    thr.add_fiber(Countdown(0)).ok().unwrap();
    thr.add_fiber(Countdown(1)).ok().unwrap();
    let first = thr.dispatch_preemptible(2).unwrap();
    assert_eq!(first, vec![rec(0, FiberState::Yielded), rec(1, FiberState::Complete)]);
    assert_eq!(thr.preempted().position(), Some(1));
    assert_eq!(thr.task().get(), Some(0));
    assert_eq!(thr.dispatch(), Err(DispatchError::Reentered));
    assert_eq!(thr.chain().fiber_ids(), vec![0, 2]);
    let rest = thr.resume().unwrap();
    assert_eq!(rest, vec![rec(2, FiberState::Yielded)]);
    assert_eq!(thr.preempted().position(), None);
    assert_eq!(thr.task().get(), None);
    assert_eq!(thr.resume(), Err(DispatchError::NotPreempted));
    let next = thr.dispatch().unwrap();
    assert_eq!(next, vec![rec(0, FiberState::Complete), rec(2, FiberState::Complete)]);
    assert!(thr.chain().is_empty());
}

#[test]
fn resumption_may_be_interrupted_again() {
    let mut thr = Thr::new(0, Shared { counter: 0 }, Local);
    for _ in 0..3 {
        thr.add_fiber(Countdown(5)).ok().unwrap();
    }
    assert_eq!(thr.dispatch_preemptible(1).unwrap().len(), 1);
    assert_eq!(thr.resume_preemptible(1).unwrap(), vec![rec(1, FiberState::Yielded)]);
    assert_eq!(thr.preempted().position(), Some(2));
    assert_eq!(thr.resume_preemptible(1).unwrap(), vec![rec(2, FiberState::Yielded)]);
    assert_eq!(thr.preempted().position(), None);
    assert!(!thr.task().is_occupied());
}

#[test]
fn registry_dispatches_by_vector() {
    let threads = vec![Thr::new(0, Shared { counter: 0 }, Local), Thr::new(1, Shared { counter: 5 }, Local)];
    let mut reg = Registry::new(threads).ok().unwrap();
    assert_eq!(reg.len(), 2);
    assert_eq!(reg.thread(1).shared().counter, 5);
    assert_eq!(reg.add_fiber(1, Countdown(0)).ok(), Some(0));
    assert_eq!(reg.dispatch(0, 10), Ok(vec![]));
    assert_eq!(reg.dispatch(1, 10), Ok(vec![rec(0, FiberState::Complete)]));
    assert!(reg.thread(1).chain().is_empty());
    assert_eq!(reg.resume(1, 10), Err(DispatchError::NotPreempted));
}

#[test]
fn registry_refuses_misplaced_thread() {
    let threads = vec![Thr::new(0, Shared { counter: 0 }, Local), Thr::new(2, Shared { counter: 0 }, Local)];
    assert_eq!(Registry::new(threads).err(), Some(RegistryError::MisplacedThread(1)));
}
