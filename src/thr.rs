//! Threads bound to interrupt vectors: their guard cells, their descriptor
//! and the registry that holds one descriptor per vector.
use crate::fib::full_pass;
use crate::fib::yielded_ids;
use crate::fib::walked;
use crate::fib::Chain;
use crate::fib::Fiber;
use crate::fib::PollRecord;
use vstd::prelude::*;

verus! {

/// The task cell of a thread was already held.
#[derive(Clone, Copy, Debug, PartialEq, Eq, Structural)]
pub struct TaskCellBusy;

/// Holds the handle of the task active on a thread, if there is one.
#[derive(Debug)]
pub struct TaskCell {
    task: Option<u64>,
}

impl TaskCell {
    pub closed spec fn spec_task(&self) -> Option<u64> {
        self.task
    }

    /// How many tasks hold the cell.
    pub open spec fn spec_occupancy(&self) -> nat {
        if self.spec_task() is Some {
            1
        } else {
            0
        }
    }

    /// An empty cell.
    pub fn new() -> (r: TaskCell)
        ensures
            r.spec_task() == None::<u64>,
    {
        TaskCell { task: None }
    }

    /// The handle of the task holding the cell.
    pub fn get(&self) -> (r: Option<u64>)
        ensures
            r == self.spec_task(),
    {
        self.task
    }

    pub fn is_occupied(&self) -> (r: bool)
        ensures
            r == self.spec_task() is Some,
    {
        self.task.is_some()
    }

    /// How many tasks hold the cell: never more than one.
    pub fn occupancy(&self) -> (r: usize)
        ensures
            r == self.spec_occupancy(),
            r <= 1,
    {
        if self.task.is_some() {
            1
        } else {
            0
        }
    }

    /// Puts `task` in the cell if the cell is empty; a held cell is left as it
    /// is and the attempt is refused.
    pub fn try_set(&mut self, task: u64) -> (r: Result<(), TaskCellBusy>)
        ensures
            old(self).spec_task() is None ==> r is Ok && final(self).spec_task() == Some(task),
            old(self).spec_task() is Some ==> r == Err::<(), _>(TaskCellBusy)
                && final(self).spec_task() == old(self).spec_task(),
    {
        if self.task.is_some() {
            Err(TaskCellBusy)
        } else {
            self.task = Some(task);
            Ok(())
        }
    }

    /// Empties the cell and returns what it held.
    pub fn take(&mut self) -> (r: Option<u64>)
        ensures
            r == old(self).spec_task(),
            final(self).spec_task() == None::<u64>,
    {
        let r = self.task;
        self.task = None;
        r
    }
}

/// A task cell is held by no task or by one, never by two.
pub proof fn lemma_task_cell_occupancy(c: TaskCell)
    ensures
        c.spec_occupancy() <= 1,
{
}

/// Records where a thread's walk of its chain was interrupted by a thread of
/// higher priority, so that the walk resumes there.
#[derive(Debug)]
pub struct PreemptedCell {
    position: Option<usize>,
}

impl PreemptedCell {
    pub closed spec fn spec_position(&self) -> Option<usize> {
        self.position
    }

    /// A cell recording no interruption.
    pub fn new() -> (r: PreemptedCell)
        ensures
            r.spec_position() == None::<usize>,
    {
        PreemptedCell { position: None }
    }

    /// The chain position at which the walk stopped, if it was interrupted.
    pub fn position(&self) -> (r: Option<usize>)
        ensures
            r == self.spec_position(),
    {
        self.position
    }

    pub fn is_preempted(&self) -> (r: bool)
        ensures
            r == self.spec_position() is Some,
    {
        self.position.is_some()
    }

    /// Records that the walk stopped at `position`.
    pub fn record(&mut self, position: usize)
        ensures
            final(self).spec_position() == Some(position),
    {
        self.position = Some(position);
    }

    /// Clears the record and returns it.
    pub fn take(&mut self) -> (r: Option<usize>)
        ensures
            r == old(self).spec_position(),
            final(self).spec_position() == None::<usize>,
    {
        let r = self.position;
        self.position = None;
        r
    }
}

/// Why a dispatch did nothing.
#[derive(Clone, Copy, Debug, PartialEq, Eq, Structural)]
pub enum DispatchError {
    /// A new dispatch found the thread's task cell held: running it would
    /// have aliased the state of the walk that holds the cell.
    Reentered,
    /// There was no interrupted walk to resume.
    NotPreempted,
}

/// The descriptor of the thread of one interrupt vector: its shared fields,
/// its local fields, its fiber chain and its two guard cells.
pub struct Thread<S, L, F> {
    index: usize,
    shared: S,
    local: L,
    chain: Chain<F>,
    task: TaskCell,
    preempted: PreemptedCell,
}

impl<S, L, F: Fiber> Thread<S, L, F> {
    pub closed spec fn spec_index(&self) -> usize {
        self.index
    }

    pub closed spec fn spec_shared(&self) -> S {
        self.shared
    }

    pub closed spec fn spec_local(&self) -> L {
        self.local
    }

    /// The ids of the fibers in the thread's chain, head first.
    pub closed spec fn fiber_ids(&self) -> Seq<u64> {
        self.chain.ids()
    }

    pub closed spec fn spec_next_id(&self) -> u64 {
        self.chain.spec_next_id()
    }

    pub closed spec fn spec_task(&self) -> Option<u64> {
        self.task.spec_task()
    }

    pub closed spec fn spec_preempted(&self) -> Option<usize> {
        self.preempted.spec_position()
    }

    /// The chain is well formed, and an interrupted walk stopped inside the
    /// chain and still holds the task cell.
    pub open spec fn wf(&self) -> bool {
        &&& self.chain_wf()
        &&& self.spec_preempted() matches Some(p) ==> p <= self.fiber_ids().len()
            && self.spec_task() is Some
    }

    pub closed spec fn chain_wf(&self) -> bool {
        self.chain.wf()
    }

    /// The thread of vector `index`, with its fields at their initial values,
    /// an empty chain and empty guard cells.
    pub fn new(index: usize, shared: S, local: L) -> (r: Self)
        ensures
            r.wf(),
            r.spec_index() == index,
            r.spec_shared() == shared,
            r.spec_local() == local,
            r.fiber_ids() == Seq::<u64>::empty(),
            r.spec_next_id() == 0,
            r.spec_task() == None::<u64>,
            r.spec_preempted() == None::<usize>,
    {
        Thread {
            index,
            shared,
            local,
            chain: Chain::new(),
            task: TaskCell::new(),
            preempted: PreemptedCell::new(),
        }
    }

    /// The vector number of the thread.
    pub fn index(&self) -> (r: usize)
        ensures
            r == self.spec_index(),
    {
        self.index
    }

    /// The fields shared with threads that preempt this one.
    pub fn shared(&self) -> (r: &S)
        ensures
            *r == self.spec_shared(),
    {
        &self.shared
    }

    /// The fields of the active task.
    pub fn local(&self) -> (r: &L)
        ensures
            *r == self.spec_local(),
    {
        &self.local
    }

    pub fn chain(&self) -> (r: &Chain<F>)
        ensures
            r.ids() == self.fiber_ids(),
            r.wf() == self.chain_wf(),
    {
        &self.chain
    }

    pub fn task(&self) -> (r: &TaskCell)
        ensures
            r.spec_task() == self.spec_task(),
    {
        &self.task
    }

    pub fn preempted(&self) -> (r: &PreemptedCell)
        ensures
            r.spec_position() == self.spec_preempted(),
    {
        &self.preempted
    }

    /// Appends a fiber to the thread's chain; see `Chain::add`.
    pub fn add_fiber(&mut self, fiber: F) -> (r: Result<u64, F>)
        requires
            old(self).wf(),
        ensures
            final(self).wf(),
            final(self).same_but_chain(*old(self)),
            match r {
                Ok(id) => {
                    &&& old(self).spec_next_id() < u64::MAX
                    &&& id == old(self).spec_next_id()
                    &&& final(self).fiber_ids() == old(self).fiber_ids().push(id)
                    &&& final(self).spec_next_id() == id + 1
                },
                Err(f) => {
                    &&& old(self).spec_next_id() == u64::MAX
                    &&& f == fiber
                    &&& final(self).fiber_ids() == old(self).fiber_ids()
                    &&& final(self).spec_next_id() == old(self).spec_next_id()
                },
            },
    {
        self.chain.add(fiber)
    }

    /// Index, fields and cells are those of `other`.
    pub open spec fn same_but_chain(&self, other: Self) -> bool {
        &&& self.spec_index() == other.spec_index()
        &&& self.spec_shared() == other.spec_shared()
        &&& self.spec_local() == other.spec_local()
        &&& self.spec_task() == other.spec_task()
        &&& self.spec_preempted() == other.spec_preempted()
    }

    /// What a dispatch allowed `max_polls` polls before an interruption does.
    /// A new dispatch (`resuming` false) is refused, changing nothing, when
    /// the task cell is held; it takes the cell and walks from the head. A
    /// resumption is refused, changing nothing, when no walk was interrupted;
    /// it walks from the position where the interrupted walk stopped. The
    /// walk goes on until the tail or until `max_polls` fibers were polled.
    /// At the tail both guard cells are emptied; before it, the stopping
    /// position is recorded and the task cell stays held.
    pub open spec fn dispatched(
        before: Self,
        resuming: bool,
        max_polls: usize,
        r: Result<Vec<PollRecord>, DispatchError>,
        after: Self,
    ) -> bool {
        let start: int = match before.spec_preempted() {
            Some(p) if resuming => p as int,
            _ => 0,
        };
        let remaining = before.fiber_ids().len() - start;
        &&& after.wf()
        &&& after.spec_index() == before.spec_index()
        &&& after.spec_shared() == before.spec_shared()
        &&& after.spec_local() == before.spec_local()
        &&& after.spec_next_id() == before.spec_next_id()
        &&& if !resuming && before.spec_task() is Some {
            &&& r == Err::<Vec<PollRecord>, _>(DispatchError::Reentered)
            &&& after == before
        } else if resuming && before.spec_preempted() is None {
            &&& r == Err::<Vec<PollRecord>, _>(DispatchError::NotPreempted)
            &&& after == before
        } else {
            match r {
                Ok(log) => {
                    &&& walked(before.fiber_ids(), start, log@, after.fiber_ids())
                    &&& log@.len() == if max_polls < remaining {
                        max_polls as int
                    } else {
                        remaining
                    }
                    &&& if log@.len() == remaining {
                        after.spec_task() == None::<u64> && after.spec_preempted() == None::<usize>
                    } else {
                        &&& after.spec_preempted() == Some(
                            (start + yielded_ids(log@).len()) as usize,
                        )
                        &&& after.spec_task() == if resuming {
                            before.spec_task()
                        } else {
                            Some(before.spec_index() as u64)
                        }
                    }
                },
                Err(_) => false,
            }
        }
    }

    fn run_walk(&mut self, start: usize, max_polls: usize) -> (r: Vec<PollRecord>)
        requires
            old(self).chain_wf(),
            start <= old(self).fiber_ids().len(),
            old(self).spec_task() is Some,
            old(self).spec_preempted() is None,
        ensures
            final(self).wf(),
            final(self).spec_index() == old(self).spec_index(),
            final(self).spec_shared() == old(self).spec_shared(),
            final(self).spec_local() == old(self).spec_local(),
            final(self).spec_next_id() == old(self).spec_next_id(),
            walked(old(self).fiber_ids(), start as int, r@, final(self).fiber_ids()),
            r@.len() == if max_polls < old(self).fiber_ids().len() - start {
                max_polls as int
            } else {
                old(self).fiber_ids().len() - start
            },
            if r@.len() == old(self).fiber_ids().len() - start {
                final(self).spec_task() == None::<u64> && final(self).spec_preempted() == None::<
                    usize,
                >
            } else {
                final(self).spec_preempted() == Some((start + yielded_ids(r@).len()) as usize)
                    && final(self).spec_task() == old(self).spec_task()
            },
    {
        let n = self.chain.len();
        let (log, pos) = self.chain.walk(start, max_polls);
        if log.len() == n - start {
            self.task.take();
        } else {
            self.preempted.record(pos);
            proof {
                lemma_yielded_len(log@);
            }
        }
        log
    }

    /// Starts a new walk of the chain with `max_polls` polls allowed before
    /// an interruption; see `dispatched`.
    pub fn dispatch_preemptible(&mut self, max_polls: usize) -> (r: Result<
        Vec<PollRecord>,
        DispatchError,
    >)
        requires
            old(self).wf(),
        ensures
            Self::dispatched(*old(self), false, max_polls, r, *final(self)),
    {
        if self.task.try_set(self.index as u64).is_err() {
            return Err(DispatchError::Reentered);
        }
        Ok(self.run_walk(0, max_polls))
    }

    /// Resumes the interrupted walk of the chain where it stopped, with
    /// `max_polls` polls allowed before another interruption; see
    /// `dispatched`.
    pub fn resume_preemptible(&mut self, max_polls: usize) -> (r: Result<
        Vec<PollRecord>,
        DispatchError,
    >)
        requires
            old(self).wf(),
        ensures
            Self::dispatched(*old(self), true, max_polls, r, *final(self)),
    {
        match self.preempted.take() {
            Some(p) => Ok(self.run_walk(p, max_polls)),
            None => Err(DispatchError::NotPreempted),
        }
    }

    /// One full pass: polls every fiber once, head first, unless the task
    /// cell is held.
    pub fn dispatch(&mut self) -> (r: Result<Vec<PollRecord>, DispatchError>)
        requires
            old(self).wf(),
        ensures
            Self::dispatched(*old(self), false, usize::MAX, r, *final(self)),
            r is Ok ==> full_pass(old(self).fiber_ids(), r.unwrap()@, final(self).fiber_ids()),
            r is Ok ==> final(self).spec_task() == None::<u64> && final(self).spec_preempted()
                == None::<usize>,
    {
        let n = self.chain.len();
        assert(self.fiber_ids().len() == n);
        self.dispatch_preemptible(usize::MAX)
    }

    /// Finishes the interrupted walk: polls every fiber from where it stopped
    /// to the tail.
    pub fn resume(&mut self) -> (r: Result<Vec<PollRecord>, DispatchError>)
        requires
            old(self).wf(),
        ensures
            Self::dispatched(*old(self), true, usize::MAX, r, *final(self)),
            r is Ok ==> final(self).spec_task() == None::<u64> && final(self).spec_preempted()
                == None::<usize>,
    {
        let n = self.chain.len();
        assert(self.fiber_ids().len() == n);
        self.resume_preemptible(usize::MAX)
    }
}

/// Why a set of threads cannot form a registry.
#[derive(Clone, Copy, Debug, PartialEq, Eq, Structural)]
pub enum RegistryError {
    /// The thread at this position of the list serves another vector.
    MisplacedThread(usize),
}

/// The threads of a program, one per interrupt vector, indexed by vector
/// number. Its size is fixed when it is built.
pub struct Registry<S, L, F> {
    threads: Vec<Thread<S, L, F>>,
}

/// The first position at which a thread does not serve the vector of its
/// position.
pub open spec fn first_misplaced<S, L, F: Fiber>(threads: Seq<Thread<S, L, F>>, i: int) -> bool {
    &&& 0 <= i < threads.len()
    &&& threads[i].spec_index() != i
    &&& forall|j: int| 0 <= j < i ==> #[trigger] threads[j].spec_index() == j
}

impl<S, L, F: Fiber> Registry<S, L, F> {
    /// The threads, by vector number.
    pub closed spec fn spec_threads(&self) -> Seq<Thread<S, L, F>> {
        self.threads@
    }

    /// Every thread is well formed and serves the vector of its position.
    pub open spec fn wf(&self) -> bool {
        forall|i: int|
            0 <= i < self.spec_threads().len() ==> #[trigger] self.spec_threads()[i].wf()
                && self.spec_threads()[i].spec_index() == i
    }

    /// Builds the registry from the threads in vector order, checking once
    /// that each thread serves the vector of its position.
    pub fn new(threads: Vec<Thread<S, L, F>>) -> (r: Result<Self, RegistryError>)
        requires
            forall|i: int| 0 <= i < threads@.len() ==> #[trigger] threads@[i].wf(),
        ensures
            match r {
                Ok(reg) => {
                    &&& reg.wf()
                    &&& reg.spec_threads() == threads@
                },
                Err(RegistryError::MisplacedThread(i)) => first_misplaced(threads@, i as int),
            },
            r is Ok <==> forall|i: int|
                0 <= i < threads@.len() ==> #[trigger] threads@[i].spec_index() == i,
    {
        let mut i: usize = 0;
        while i < threads.len()
            invariant
                i <= threads@.len(),
                forall|j: int| 0 <= j < i ==> #[trigger] threads@[j].spec_index() == j,
            decreases threads@.len() - i,
        {
            if threads[i].index() != i {
                return Err(RegistryError::MisplacedThread(i));
            }
            i += 1;
        }
        Ok(Registry { threads })
    }

    /// The number of vectors.
    pub fn len(&self) -> (r: usize)
        ensures
            r == self.spec_threads().len(),
    {
        self.threads.len()
    }

    /// The thread of vector `vector`.
    pub fn thread(&self, vector: usize) -> (r: &Thread<S, L, F>)
        requires
            vector < self.spec_threads().len(),
        ensures
            *r == self.spec_threads()[vector as int],
    {
        &self.threads[vector]
    }

    /// Appends a fiber to the chain of the thread of vector `vector`.
    #[verifier::spinoff_prover]
    pub fn add_fiber(&mut self, vector: usize, fiber: F) -> (r: Result<u64, F>)
        requires
            old(self).wf(),
            vector < old(self).spec_threads().len(),
        ensures
            final(self).wf(),
            final(self).spec_threads().len() == old(self).spec_threads().len(),
            forall|i: int|
                0 <= i < old(self).spec_threads().len() && i != vector
                    ==> #[trigger] final(self).spec_threads()[i] == old(self).spec_threads()[i],
            ({
                let (before, after) = (
                    old(self).spec_threads()[vector as int],
                    final(self).spec_threads()[vector as int],
                );
                &&& after.same_but_chain(before)
                &&& match r {
                    Ok(id) => {
                        &&& before.spec_next_id() < u64::MAX
                        &&& id == before.spec_next_id()
                        &&& after.fiber_ids() == before.fiber_ids().push(id)
                        &&& after.spec_next_id() == id + 1
                    },
                    Err(f) => {
                        &&& before.spec_next_id() == u64::MAX
                        &&& f == fiber
                        &&& after.fiber_ids() == before.fiber_ids()
                        &&& after.spec_next_id() == before.spec_next_id()
                    },
                }
            }),
    {
        let ghost before = self.threads@;
        assert(self.spec_threads()[vector as int].wf());
        assert(self.spec_threads()[vector as int].spec_index() == vector);
        let r = self.threads[vector].add_fiber(fiber);
        assert forall|i: int| 0 <= i < self.spec_threads().len() implies #[trigger] self.spec_threads()[i].wf()
            && self.spec_threads()[i].spec_index() == i by {
            if i != vector {
                assert(self.threads@[i] == before[i]);
                assert(old(self).spec_threads()[i].wf());
            }
        }
        r
    }

    /// Starts a new walk of the thread of vector `vector`, with `max_polls`
    /// polls allowed before an interruption; the other threads are untouched.
    #[verifier::spinoff_prover]
    pub fn dispatch(&mut self, vector: usize, max_polls: usize) -> (r: Result<
        Vec<PollRecord>,
        DispatchError,
    >)
        requires
            old(self).wf(),
            vector < old(self).spec_threads().len(),
        ensures
            final(self).wf(),
            final(self).spec_threads().len() == old(self).spec_threads().len(),
            forall|i: int|
                0 <= i < old(self).spec_threads().len() && i != vector
                    ==> #[trigger] final(self).spec_threads()[i] == old(self).spec_threads()[i],
            Thread::dispatched(
                old(self).spec_threads()[vector as int],
                false,
                max_polls,
                r,
                final(self).spec_threads()[vector as int],
            ),
    {
        let ghost before = self.threads@;
        assert(self.spec_threads()[vector as int].wf());
        assert(self.spec_threads()[vector as int].spec_index() == vector);
        let r = self.threads[vector].dispatch_preemptible(max_polls);
        assert forall|i: int| 0 <= i < self.spec_threads().len() implies #[trigger] self.spec_threads()[i].wf()
            && self.spec_threads()[i].spec_index() == i by {
            if i != vector {
                assert(self.threads@[i] == before[i]);
                assert(old(self).spec_threads()[i].wf());
            }
        }
        r
    }

    /// Resumes the interrupted walk of the thread of vector `vector`, with
    /// `max_polls` polls allowed before another interruption; the other
    /// threads are untouched.
    #[verifier::spinoff_prover]
    pub fn resume(&mut self, vector: usize, max_polls: usize) -> (r: Result<
        Vec<PollRecord>,
        DispatchError,
    >)
        requires
            old(self).wf(),
            vector < old(self).spec_threads().len(),
        ensures
            final(self).wf(),
            final(self).spec_threads().len() == old(self).spec_threads().len(),
            forall|i: int|
                0 <= i < old(self).spec_threads().len() && i != vector
                    ==> #[trigger] final(self).spec_threads()[i] == old(self).spec_threads()[i],
            Thread::dispatched(
                old(self).spec_threads()[vector as int],
                true,
                max_polls,
                r,
                final(self).spec_threads()[vector as int],
            ),
    {
        let ghost before = self.threads@;
        assert(self.spec_threads()[vector as int].wf());
        assert(self.spec_threads()[vector as int].spec_index() == vector);
        let r = self.threads[vector].resume_preemptible(max_polls);
        assert forall|i: int| 0 <= i < self.spec_threads().len() implies #[trigger] self.spec_threads()[i].wf()
            && self.spec_threads()[i].spec_index() == i by {
            if i != vector {
                assert(self.threads@[i] == before[i]);
                assert(old(self).spec_threads()[i].wf());
            }
        }
        r
    }
}

proof fn lemma_yielded_len(log: Seq<PollRecord>)
    ensures
        yielded_ids(log).len() <= log.len(),
    decreases log.len(),
{
    if log.len() > 0 {
        lemma_yielded_len(log.drop_last());
    }
}

} // verus!
