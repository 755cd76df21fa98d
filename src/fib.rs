//! Fibers and the per-thread chain that polls them.
use vstd::prelude::*;

verus! {

/// What a fiber reports after running to its next checkpoint.
#[derive(Clone, Copy, Debug, PartialEq, Eq, Structural)]
pub enum FiberState {
    /// It has more work and stays in the chain.
    Yielded,
    /// It has finished and leaves the chain.
    Complete,
}

/// A resumable unit of cooperative work.
pub trait Fiber {
    /// Runs the fiber from where it last stopped to its next checkpoint.
    fn resume(&mut self) -> FiberState;
}

/// One poll of one fiber during a walk of a chain.
#[derive(Clone, Copy, Debug, PartialEq, Eq, Structural)]
pub struct PollRecord {
    /// The number the chain gave the fiber when it was added.
    pub id: u64,
    /// What the fiber reported.
    pub state: FiberState,
}

/// The ids of a walk's record, in the order they were polled.
pub open spec fn log_ids(log: Seq<PollRecord>) -> Seq<u64> {
    log.map_values(|p: PollRecord| p.id)
}

/// The ids of the fibers that yielded during a walk, in the order they were
/// polled.
pub open spec fn yielded_ids(log: Seq<PollRecord>) -> Seq<u64>
    decreases log.len(),
{
    if log.len() == 0 {
        Seq::empty()
    } else {
        let rest = yielded_ids(log.drop_last());
        if log.last().state == FiberState::Yielded {
            rest.push(log.last().id)
        } else {
            rest
        }
    }
}

pub open spec fn strictly_increasing(s: Seq<u64>) -> bool {
    forall|i: int, j: int| 0 <= i < j < s.len() ==> s[i] < s[j]
}

/// A walk that started at position `start` of a chain holding the fibers
/// `before` (by id) polled, front to back, the fibers that `log` records,
/// left those that yielded where they stood, unlinked those that completed,
/// and left the chain holding `after`.
pub open spec fn walked(before: Seq<u64>, start: int, log: Seq<PollRecord>, after: Seq<u64>) -> bool {
    &&& 0 <= start
    &&& start + log.len() <= before.len()
    &&& log_ids(log) == before.subrange(start, start + log.len())
    &&& after == before.subrange(0, start) + yielded_ids(log) + before.subrange(
        start + log.len(),
        before.len() as int,
    )
}

/// A full pass over a chain holding `before`: every fiber polled once, from
/// the head.
pub open spec fn full_pass(before: Seq<u64>, log: Seq<PollRecord>, after: Seq<u64>) -> bool {
    walked(before, 0, log, after) && log.len() == before.len()
}

struct Link<F> {
    id: u64,
    fiber: F,
}

/// The fibers of one thread, in the order they were added.
pub struct Chain<F> {
    links: Vec<Link<F>>,
    next_id: u64,
}

impl<F: Fiber> Chain<F> {
    /// The ids of the fibers in the chain, head first.
    pub closed spec fn ids(&self) -> Seq<u64> {
        self.links@.map_values(|l: Link<F>| l.id)
    }

    /// The id the next added fiber gets.
    pub closed spec fn spec_next_id(&self) -> u64 {
        self.next_id
    }

    /// Ids increase from head to tail and are all below the next one to be
    /// given out.
    pub open spec fn wf(&self) -> bool {
        &&& strictly_increasing(self.ids())
        &&& forall|i: int| 0 <= i < self.ids().len() ==> self.ids()[i] < self.spec_next_id()
    }

    /// An empty chain.
    pub fn new() -> (r: Self)
        ensures
            r.wf(),
            r.ids() == Seq::<u64>::empty(),
            r.spec_next_id() == 0,
    {
        let r = Chain { links: Vec::new(), next_id: 0 };
        assert(r.ids() =~= Seq::<u64>::empty());
        r
    }

    /// The number of fibers in the chain.
    pub fn len(&self) -> (r: usize)
        ensures
            r == self.ids().len(),
    {
        self.links.len()
    }

    pub fn is_empty(&self) -> (r: bool)
        ensures
            r <==> self.ids().len() == 0,
    {
        self.links.len() == 0
    }

    /// The ids of the fibers in the chain, head first.
    pub fn fiber_ids(&self) -> (r: Vec<u64>)
        ensures
            r@ == self.ids(),
    {
        let mut r: Vec<u64> = Vec::new();
        let mut i: usize = 0;
        while i < self.links.len()
            invariant
                i <= self.links@.len(),
                r@ == self.ids().subrange(0, i as int),
            decreases self.links@.len() - i,
        {
            r.push(self.links[i].id);
            i += 1;
            assert(r@ =~= self.ids().subrange(0, i as int));
        }
        assert(r@ =~= self.ids());
        r
    }

    /// Appends a fiber at the tail and returns the id it was given; the fiber
    /// is handed back when every id has been used.
    pub fn add(&mut self, fiber: F) -> (r: Result<u64, F>)
        requires
            old(self).wf(),
        ensures
            final(self).wf(),
            match r {
                Ok(id) => {
                    &&& old(self).spec_next_id() < u64::MAX
                    &&& id == old(self).spec_next_id()
                    &&& final(self).ids() == old(self).ids().push(id)
                    &&& final(self).spec_next_id() == id + 1
                },
                Err(f) => {
                    &&& old(self).spec_next_id() == u64::MAX
                    &&& f == fiber
                    &&& *final(self) == *old(self)
                },
            },
    {
        if self.next_id == u64::MAX {
            return Err(fiber);
        }
        let id = self.next_id;
        let ghost before = self.ids();
        self.links.push(Link { id, fiber });
        self.next_id = id + 1;
        assert(self.ids() =~= before.push(id));
        Ok(id)
    }

    /// Polls fibers from position `start`, front to back, until the tail or
    /// until `max_polls` have been polled. A fiber that completes is unlinked
    /// where it stands; one that yields keeps its place. Returns the record of
    /// the walk and the position at which it stopped.
    pub fn walk(&mut self, start: usize, max_polls: usize) -> (r: (Vec<PollRecord>, usize))
        requires
            old(self).wf(),
            start <= old(self).ids().len(),
        ensures
            final(self).wf(),
            final(self).spec_next_id() == old(self).spec_next_id(),
            walked(old(self).ids(), start as int, r.0@, final(self).ids()),
            r.0@.len() == if max_polls < old(self).ids().len() - start {
                max_polls as int
            } else {
                old(self).ids().len() - start
            },
            r.1 == start + yielded_ids(r.0@).len(),
    {
        let ghost before = self.ids();
        let mut pos: usize = start;
        let mut log: Vec<PollRecord> = Vec::new();
        proof {
            assert(log_ids(log@) =~= before.subrange(start as int, start as int));
            assert(self.ids() =~= before.subrange(0, start as int) + yielded_ids(log@)
                + before.subrange(start as int, before.len() as int));
        }
        while pos < self.links.len() && log.len() < max_polls
            invariant
                start <= before.len(),
                start + log@.len() <= before.len(),
                log@.len() <= max_polls,
                pos == start + yielded_ids(log@).len(),
                log_ids(log@) == before.subrange(start as int, start + log@.len()),
                self.ids() == before.subrange(0, start as int) + yielded_ids(log@)
                    + before.subrange(start + log@.len(), before.len() as int),
                self.next_id == old(self).next_id,
            decreases before.len() - log@.len(),
        {
            let ghost ids0 = self.ids();
            let ghost log0 = log@;
            assert(ids0[pos as int] == before[start + log@.len()]);
            let id = self.links[pos].id;
            let state = self.links[pos].fiber.resume();
            assert(self.ids() =~= ids0);
            log.push(PollRecord { id, state });
            assert(log@.drop_last() == log0);
            assert(log_ids(log@) =~= before.subrange(start as int, start + log@.len()));
            match state {
                FiberState::Yielded => {
                    pos += 1;
                    assert(yielded_ids(log@) == yielded_ids(log0).push(id));
                    assert(self.ids() =~= before.subrange(0, start as int) + yielded_ids(log@)
                        + before.subrange(start + log@.len(), before.len() as int));
                },
                FiberState::Complete => {
                    self.links.remove(pos);
                    assert(yielded_ids(log@) == yielded_ids(log0));
                    assert(self.ids() =~= ids0.remove(pos as int));
                    assert(self.ids() =~= before.subrange(0, start as int) + yielded_ids(log@)
                        + before.subrange(start + log@.len(), before.len() as int));
                },
            }
        }
        proof {
            lemma_walk_keeps_order(before, start as int, log@);
            assert forall|i: int| 0 <= i < self.ids().len() implies self.ids()[i]
                < self.next_id by {
                lemma_walk_members(before, start as int, log@, i);
            }
        }
        (log, pos)
    }

    /// One full pass: every fiber is polled once, head to tail.
    pub fn dispatch(&mut self) -> (r: Vec<PollRecord>)
        requires
            old(self).wf(),
        ensures
            final(self).wf(),
            final(self).spec_next_id() == old(self).spec_next_id(),
            full_pass(old(self).ids(), r@, final(self).ids()),
    {
        let n = self.links.len();
        assert(self.ids().len() == n);
        let r = self.walk(0, usize::MAX);
        r.0
    }
}

/// Over two successive full passes of a chain whose ids increase, as `add`
/// gives them out: the first pass polls the fibers in the order they were
/// added; a fiber that completed in the first pass is absent from the second;
/// a fiber that yielded in the first pass is polled again in the second, and
/// the second pass keeps the order of addition too.
pub proof fn lemma_passes_keep_order(
    before: Seq<u64>,
    log1: Seq<PollRecord>,
    mid: Seq<u64>,
    log2: Seq<PollRecord>,
    after: Seq<u64>,
)
    requires
        strictly_increasing(before),
        full_pass(before, log1, mid),
        full_pass(mid, log2, after),
    ensures
        log_ids(log1) == before,
        log_ids(log2) == mid,
        strictly_increasing(log_ids(log2)),
        forall|k: int|
            0 <= k < log1.len() && log1[k].state == FiberState::Complete ==> !log_ids(
                log2,
            ).contains(#[trigger] log1[k].id),
        forall|k: int|
            0 <= k < log1.len() && log1[k].state == FiberState::Yielded ==> log_ids(
                log2,
            ).contains(#[trigger] log1[k].id),
{
    assert(log_ids(log1) =~= before);
    assert(mid =~= yielded_ids(log1));
    assert(log_ids(log2) =~= mid);
    lemma_yielded_increasing(log1);
    lemma_yielded_members(log1);
    assert forall|k: int|
        0 <= k < log1.len() && log1[k].state == FiberState::Complete implies !log_ids(
        log2,
    ).contains(#[trigger] log1[k].id) by {
        if log_ids(log2).contains(log1[k].id) {
            let i = choose|i: int| 0 <= i < mid.len() && mid[i] == log1[k].id;
            let j = choose|j: int|
                0 <= j < log1.len() && #[trigger] log1[j].id == yielded_ids(log1)[i]
                    && log1[j].state == FiberState::Yielded;
            assert(log_ids(log1)[j] == log1[j].id);
            assert(log_ids(log1)[k] == log1[k].id);
        }
    }
    assert forall|k: int|
        0 <= k < log1.len() && log1[k].state == FiberState::Yielded implies log_ids(
        log2,
    ).contains(#[trigger] log1[k].id) by {
        lemma_yielded_contains(log1, k);
    }
}

/// A walk from the head that was interrupted, followed by the resumption
/// from where it stopped through to the tail, polls the fibers and leaves the
/// chain exactly as one uninterrupted pass would.
pub proof fn lemma_resumed_walk_is_full_pass(
    before: Seq<u64>,
    log1: Seq<PollRecord>,
    mid: Seq<u64>,
    log2: Seq<PollRecord>,
    after: Seq<u64>,
)
    requires
        walked(before, 0, log1, mid),
        walked(mid, yielded_ids(log1).len() as int, log2, after),
        log1.len() + log2.len() == before.len(),
    ensures
        full_pass(before, log1 + log2, after),
{
    let n1 = log1.len() as int;
    let p = yielded_ids(log1).len() as int;
    assert(log_ids(log2) =~= before.subrange(n1, before.len() as int)) by {
        assert forall|k: int| 0 <= k < log2.len() implies log_ids(log2)[k] == before[n1 + k] by {
            assert(log_ids(log2)[k] == mid[p + k]);
        }
    }
    assert(log_ids(log1 + log2) =~= before) by {
        assert forall|k: int| 0 <= k < before.len() implies log_ids(log1 + log2)[k] == before[k] by {
            if k < n1 {
                assert(log_ids(log1)[k] == before[k]);
            } else {
                assert(log_ids(log2)[k - n1] == before[k]);
            }
        }
    }
    assert(before.subrange(0, (log1 + log2).len() as int) =~= before);
    lemma_yielded_concat(log1, log2);
    assert(mid.subrange(0, p) =~= yielded_ids(log1));
    assert(after =~= yielded_ids(log1 + log2));
    assert(before.subrange(0, 0) + yielded_ids(log1 + log2) + before.subrange(
        before.len() as int,
        before.len() as int,
    ) =~= yielded_ids(log1 + log2));
}

proof fn lemma_yielded_concat(a: Seq<PollRecord>, b: Seq<PollRecord>)
    ensures
        yielded_ids(a + b) == yielded_ids(a) + yielded_ids(b),
    decreases b.len(),
{
    if b.len() == 0 {
        assert(a + b =~= a);
        assert(yielded_ids(a) + yielded_ids(b) =~= yielded_ids(a));
    } else {
        lemma_yielded_concat(a, b.drop_last());
        assert((a + b).drop_last() =~= a + b.drop_last());
        assert((a + b).last() == b.last());
        if b.last().state == FiberState::Yielded {
            assert(yielded_ids(a) + yielded_ids(b) =~= (yielded_ids(a) + yielded_ids(
                b.drop_last(),
            )).push(b.last().id));
        }
    }
}

/// Every id left by the fibers that yielded is the id of a polled fiber that
/// yielded.
proof fn lemma_yielded_members(log: Seq<PollRecord>)
    ensures
        forall|k: int|
            #![trigger yielded_ids(log)[k]]
            0 <= k < yielded_ids(log).len() ==> exists|j: int|
                0 <= j < log.len() && #[trigger] log[j].id == yielded_ids(log)[k]
                    && log[j].state == FiberState::Yielded,
    decreases log.len(),
{
    if log.len() > 0 {
        let init = log.drop_last();
        lemma_yielded_members(init);
        assert forall|k: int|
            #![trigger yielded_ids(log)[k]]
            0 <= k < yielded_ids(log).len() implies exists|j: int|
            0 <= j < log.len() && #[trigger] log[j].id == yielded_ids(log)[k] && log[j].state
                == FiberState::Yielded by {
            if k < yielded_ids(init).len() {
                let j = choose|j: int|
                    0 <= j < init.len() && #[trigger] init[j].id == yielded_ids(init)[k]
                        && init[j].state == FiberState::Yielded;
                assert(log[j] == init[j]);
            } else {
                assert(log[log.len() - 1].id == yielded_ids(log)[k]);
            }
        }
    }
}

/// A fiber that yielded during a walk is among those left in the chain.
proof fn lemma_yielded_contains(log: Seq<PollRecord>, k: int)
    requires
        0 <= k < log.len(),
        log[k].state == FiberState::Yielded,
    ensures
        yielded_ids(log).contains(log[k].id),
    decreases log.len(),
{
    let init = log.drop_last();
    if k < log.len() - 1 {
        lemma_yielded_contains(init, k);
        assert(init[k] == log[k]);
        let i = choose|i: int| 0 <= i < yielded_ids(init).len() && yielded_ids(init)[i] == log[k].id;
        if log.last().state == FiberState::Yielded {
            assert(yielded_ids(log)[i] == log[k].id);
        }
    } else {
        assert(yielded_ids(log).last() == log[k].id);
    }
}

/// When the polled ids increase, so do the ids of those that yielded.
proof fn lemma_yielded_increasing(log: Seq<PollRecord>)
    requires
        strictly_increasing(log_ids(log)),
    ensures
        strictly_increasing(yielded_ids(log)),
    decreases log.len(),
{
    if log.len() > 0 {
        let init = log.drop_last();
        assert(log_ids(init) =~= log_ids(log).drop_last());
        lemma_yielded_increasing(init);
        lemma_yielded_members(init);
        if log.last().state == FiberState::Yielded {
            let y = yielded_ids(log);
            assert forall|i: int, j: int| 0 <= i < j < y.len() implies y[i] < y[j] by {
                if j == y.len() - 1 {
                    let jj = choose|jj: int|
                        0 <= jj < init.len() && #[trigger] init[jj].id == yielded_ids(init)[i]
                            && init[jj].state == FiberState::Yielded;
                    assert(log_ids(log)[jj] == init[jj].id);
                    assert(log_ids(log)[log.len() - 1] == log.last().id);
                }
            }
        }
    }
}

/// Each position of what a walk left holds an id of the chain before it.
proof fn lemma_walk_members(before: Seq<u64>, start: int, log: Seq<PollRecord>, i: int)
    requires
        0 <= start,
        start + log.len() <= before.len(),
        log_ids(log) == before.subrange(start, start + log.len()),
        0 <= i < (before.subrange(0, start) + yielded_ids(log) + before.subrange(
            start + log.len(),
            before.len() as int,
        )).len(),
    ensures
        exists|j: int|
            0 <= j < before.len() && before[j] == (before.subrange(0, start) + yielded_ids(log)
                + before.subrange(start + log.len(), before.len() as int))[i],
{
    let after = before.subrange(0, start) + yielded_ids(log) + before.subrange(
        start + log.len(),
        before.len() as int,
    );
    let y = yielded_ids(log);
    if i < start {
        assert(after[i] == before[i]);
    } else if i < start + y.len() {
        lemma_yielded_members(log);
        let j = choose|j: int|
            0 <= j < log.len() && #[trigger] log[j].id == y[i - start] && log[j].state
                == FiberState::Yielded;
        assert(log_ids(log)[j] == log[j].id);
        assert(after[i] == before[start + j]);
    } else {
        assert(after[i] == before[i - y.len() + log.len()]);
    }
}

/// A walk keeps the ids of a chain in increasing order.
proof fn lemma_walk_keeps_order(before: Seq<u64>, start: int, log: Seq<PollRecord>)
    requires
        strictly_increasing(before),
        0 <= start,
        start + log.len() <= before.len(),
        log_ids(log) == before.subrange(start, start + log.len()),
    ensures
        strictly_increasing(
            before.subrange(0, start) + yielded_ids(log) + before.subrange(
                start + log.len(),
                before.len() as int,
            ),
        ),
{
    let y = yielded_ids(log);
    let n = log.len() as int;
    let after = before.subrange(0, start) + y + before.subrange(start + n, before.len() as int);
    lemma_yielded_increasing(log);
    lemma_yielded_members(log);
    assert forall|i: int, j: int| 0 <= i < j < after.len() implies after[i] < after[j] by {
        let pi: int = if i < start {
            i
        } else if i < start + y.len() {
            let a = choose|a: int|
                0 <= a < log.len() && #[trigger] log[a].id == y[i - start] && log[a].state
                    == FiberState::Yielded;
            assert(log_ids(log)[a] == log[a].id);
            start + a
        } else {
            i - y.len() + n
        };
        let pj: int = if j < start {
            j
        } else if j < start + y.len() {
            let a = choose|a: int|
                0 <= a < log.len() && #[trigger] log[a].id == y[j - start] && log[a].state
                    == FiberState::Yielded;
            assert(log_ids(log)[a] == log[a].id);
            start + a
        } else {
            j - y.len() + n
        };
        assert(after[i] == before[pi]);
        assert(after[j] == before[pj]);
        if start <= i < start + y.len() && start <= j < start + y.len() {
            assert(y[i - start] < y[j - start]);
        } else {
            assert(pi < pj);
        }
    }
}

} // verus!
