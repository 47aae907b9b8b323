//! The pool as a state machine: its mathematical state, the events that move
//! it, and the invariant that every reachable state satisfies.

use crate::channel::{lemma_pop_keeps_fifo, lemma_push_keeps_fifo, ChannelView};
use crate::worker::{WorkerState, WorkerView};
use vstd::prelude::*;

verus! {

/// One entry of the completion log: a job that ran to its end.
pub struct Completion {
    /// The job's submission index.
    pub ticket: nat,
    /// The worker that ran it.
    pub worker: nat,
}

/// The mathematical state of a pool.
pub struct PoolView<J> {
    /// The workers, each at the position of its identity.
    pub workers: Seq<WorkerView>,
    /// The dispatch channel.
    pub channel: ChannelView<J>,
    /// The jobs that have run to completion, in the order in which they ended.
    pub completed: Seq<Completion>,
}

/// What can happen to a pool.
pub enum Event<J> {
    /// The owner submits a job.
    Submit(J),
    /// The worker with this identity asks the channel for the next job.
    Receive(nat),
    /// The job that this worker runs comes to its end.
    Complete(nat),
    /// The job that this worker runs fails.
    Fail(nat),
    /// The owner releases the pool.
    Release,
}

/// Whether one of `workers` holds the job with the submission index `ticket`.
pub open spec fn holds(workers: Seq<WorkerView>, ticket: nat) -> bool {
    exists|i: int| 0 <= i < workers.len() && (#[trigger] workers[i]).ticket == Some(ticket)
}

/// How many of `workers` are in `state`.
pub open spec fn count_in(workers: Seq<WorkerView>, state: WorkerState) -> nat
    decreases workers.len(),
{
    if workers.len() == 0 {
        0
    } else {
        count_in(workers.drop_last(), state) + if workers.last().state == state {
            1nat
        } else {
            0nat
        }
    }
}

impl<J> PoolView<J> {
    /// A pool of `size` workers as it is built: every worker waits, nothing
    /// has been submitted.
    pub open spec fn fresh(size: nat) -> Self {
        PoolView {
            workers: Seq::new(size, |i: int| WorkerView::fresh(i as nat)),
            channel: ChannelView::fresh(),
            completed: Seq::empty(),
        }
    }

    /// The number of workers the pool was built with.
    pub open spec fn size(self) -> nat {
        self.workers.len()
    }

    /// Every job submitted so far, in the order of submission. The position
    /// of a job in this sequence is its submission index.
    pub open spec fn submitted(self) -> Seq<J> {
        self.channel.sent
    }

    /// The jobs that wait for a worker, oldest first.
    pub open spec fn queued(self) -> Seq<J> {
        self.channel.queue
    }

    /// How many jobs have been handed to a worker so far.
    pub open spec fn delivered(self) -> nat {
        self.channel.taken()
    }

    /// How many workers are in `state`.
    pub open spec fn count(self, state: WorkerState) -> nat {
        count_in(self.workers, state)
    }

    /// How many workers still run their loop.
    pub open spec fn live_workers(self) -> nat {
        self.count(WorkerState::Idle) + self.count(WorkerState::Executing)
    }

    /// How many jobs are being run at this moment.
    pub open spec fn in_flight(self) -> nat {
        self.count(WorkerState::Executing)
    }

    /// How many workers have ended on a failed job.
    pub open spec fn failed(self) -> nat {
        self.count(WorkerState::Failed)
    }

    /// Nothing waits and nothing runs.
    pub open spec fn quiescent(self) -> bool {
        self.queued().len() == 0 && self.in_flight() == 0
    }

    /// Whether the job with the submission index `ticket` stands in the
    /// completion log.
    pub open spec fn has_completed(self, ticket: nat) -> bool {
        exists|k: int|
            0 <= k < self.completed.len() && (#[trigger] self.completed[k]).ticket == ticket
    }

    /// Whether a worker holds the job with the submission index `ticket`: it
    /// runs the job, or it has ended on it.
    pub open spec fn is_held(self, ticket: nat) -> bool {
        holds(self.workers, ticket)
    }

    /// Whether `id` names a worker that is in `state`.
    pub open spec fn worker_is(self, id: nat, state: WorkerState) -> bool {
        id < self.size() && self.workers[id as int].state == state
    }

    /// What holds of the worker at position `i` alone: its identity is its
    /// position, what it holds agrees with where it stands, the job it holds
    /// is a delivered one, and it has ended as closed only in a released pool
    /// whose queue is empty.
    pub open spec fn worker_ok(self, i: int) -> bool {
        let w = self.workers[i];
        &&& w.id == i
        &&& w.wf()
        &&& w.ticket matches Some(t) ==> t < self.delivered()
        &&& w.state is Closed ==> !self.channel.open && self.queued().len() == 0
    }

    /// What holds of the `k`-th completion alone: it is the completion of a
    /// delivered job by a worker of the pool.
    pub open spec fn entry_ok(self, k: int) -> bool {
        let c = self.completed[k];
        c.ticket < self.delivered() && c.worker < self.size()
    }

    /// The invariant of the pool.
    ///
    /// The queue is what was submitted and not yet delivered, in order. Every
    /// delivered job is accounted for exactly once: it is in the hands of one
    /// worker, which runs it or has ended on it, or it stands once in the
    /// completion log. A worker completes its jobs in the order in which it
    /// took them.
    pub open spec fn inv(self) -> bool {
        &&& self.size() >= 1
        &&& self.channel.fifo()
        &&& forall|i: int| 0 <= i < self.workers.len() ==> #[trigger] self.worker_ok(i)
        &&& forall|k: int| 0 <= k < self.completed.len() ==> #[trigger] self.entry_ok(k)
        &&& forall|i: int, j: int|
            0 <= i < j < self.workers.len() && (#[trigger] self.workers[i]).ticket is Some ==> (
            #[trigger] self.workers[j]).ticket != self.workers[i].ticket
        &&& forall|k: int, l: int|
            0 <= k < l < self.completed.len() ==> {
                let a = #[trigger] self.completed[k];
                let b = #[trigger] self.completed[l];
                a.ticket != b.ticket && (a.worker == b.worker ==> a.ticket < b.ticket)
            }
        &&& forall|i: int, k: int|
            0 <= i < self.workers.len() && 0 <= k < self.completed.len() && (
            #[trigger] self.workers[i]).ticket is Some ==> {
                let t = self.workers[i].ticket->0;
                let c = #[trigger] self.completed[k];
                c.ticket != t && (c.worker == i ==> c.ticket < t)
            }
        &&& self.delivered() == self.completed.len() + self.in_flight() + self.failed()
    }

    /// Whether `event` can happen in this state.
    ///
    /// A job can be submitted while the pool is held and a worker is left to
    /// receive it. A worker asks for a job when it waits, and its job ends or
    /// fails while it runs one.
    pub open spec fn enabled(self, event: Event<J>) -> bool {
        match event {
            Event::Submit(_) => self.channel.open && self.live_workers() > 0,
            Event::Receive(id) => self.worker_is(id, WorkerState::Idle),
            Event::Complete(id) => self.worker_is(id, WorkerState::Executing),
            Event::Fail(id) => self.worker_is(id, WorkerState::Executing),
            Event::Release => true,
        }
    }

    /// The state after `event` has happened.
    pub open spec fn apply(self, event: Event<J>) -> Self {
        match event {
            Event::Submit(job) => PoolView { channel: self.channel.push(job), ..self },
            Event::Receive(id) => PoolView {
                workers: self.workers.update(
                    id as int,
                    self.workers[id as int].receive(self.channel),
                ),
                channel: self.channel.pop(),
                ..self
            },
            Event::Complete(id) => PoolView {
                workers: self.workers.update(id as int, self.workers[id as int].complete()),
                completed: self.completed.push(
                    Completion { ticket: self.workers[id as int].ticket->0, worker: id },
                ),
                ..self
            },
            Event::Fail(id) => PoolView {
                workers: self.workers.update(id as int, self.workers[id as int].fail()),
                ..self
            },
            Event::Release => PoolView { channel: self.channel.close(), ..self },
        }
    }

    /// Whether the events can happen one after the other, starting here.
    pub open spec fn admits(self, events: Seq<Event<J>>) -> bool
        decreases events.len(),
    {
        events.len() == 0 || (self.enabled(events[0]) && self.apply(events[0]).admits(
            events.drop_first(),
        ))
    }

    /// The state after the events have happened one after the other.
    pub open spec fn run(self, events: Seq<Event<J>>) -> Self
        decreases events.len(),
    {
        if events.len() == 0 {
            self
        } else {
            self.apply(events[0]).run(events.drop_first())
        }
    }
}

/// Replacing one worker moves the count of a state by what that worker
/// leaves and what it enters.
pub proof fn lemma_count_update(
    workers: Seq<WorkerView>,
    i: int,
    worker: WorkerView,
    state: WorkerState,
)
    requires
        0 <= i < workers.len(),
    ensures
        count_in(workers.update(i, worker), state) + (if workers[i].state == state {
            1nat
        } else {
            0nat
        }) == count_in(workers, state) + (if worker.state == state {
            1nat
        } else {
            0nat
        }),
    decreases workers.len(),
{
    if i == workers.len() - 1 {
        assert(workers.update(i, worker).drop_last() =~= workers.drop_last());
    } else {
        assert(workers.update(i, worker).drop_last() =~= workers.drop_last().update(i, worker));
        lemma_count_update(workers.drop_last(), i, worker, state);
    }
}

/// Every worker is in exactly one of the four states.
pub proof fn lemma_counts_partition(workers: Seq<WorkerView>)
    ensures
        count_in(workers, WorkerState::Idle) + count_in(workers, WorkerState::Executing)
            + count_in(workers, WorkerState::Closed) + count_in(workers, WorkerState::Failed)
            == workers.len(),
    decreases workers.len(),
{
    if workers.len() > 0 {
        lemma_counts_partition(workers.drop_last());
    }
}

/// A state is counted zero times exactly when no worker is in it.
pub proof fn lemma_count_zero(workers: Seq<WorkerView>, state: WorkerState)
    ensures
        count_in(workers, state) == 0 <==> forall|i: int|
            0 <= i < workers.len() ==> (#[trigger] workers[i]).state != state,
    decreases workers.len(),
{
    if workers.len() > 0 {
        let front = workers.drop_last();
        lemma_count_zero(front, state);
        if count_in(workers, state) == 0 {
            assert forall|i: int| 0 <= i < workers.len() implies (#[trigger] workers[i]).state
                != state by {
                if i < front.len() {
                    assert(front[i] == workers[i]);
                }
            }
        }
    }
}

/// A freshly built pool satisfies the invariant, and all its workers wait.
pub proof fn lemma_fresh_inv<J>(size: nat)
    requires
        size >= 1,
    ensures
        PoolView::<J>::fresh(size).inv(),
        PoolView::<J>::fresh(size).count(WorkerState::Idle) == size,
        PoolView::<J>::fresh(size).live_workers() == size,
{
    let p = PoolView::<J>::fresh(size);
    assert(p.channel.queue =~= p.channel.sent.subrange(0, 0));
    lemma_count_zero(p.workers, WorkerState::Executing);
    lemma_count_zero(p.workers, WorkerState::Failed);
    lemma_count_zero(p.workers, WorkerState::Closed);
    lemma_counts_partition(p.workers);
}

/// Every event that can happen leads from a state that satisfies the
/// invariant to one that satisfies it.
pub proof fn lemma_step_keeps_inv<J>(p: PoolView<J>, event: Event<J>)
    requires
        p.inv(),
        p.enabled(event),
    ensures
        p.apply(event).inv(),
{
    let q = p.apply(event);
    match event {
        Event::Submit(job) => {
            lemma_push_keeps_fifo(p.channel, job);
            assert forall|i: int| 0 <= i < q.workers.len() implies #[trigger] q.worker_ok(i) by {
                assert(p.worker_ok(i));
            }
            assert forall|k: int| 0 <= k < q.completed.len() implies #[trigger] q.entry_ok(k) by {
                assert(p.entry_ok(k));
            }
        },
        Event::Receive(id) => {
            let i0 = id as int;
            lemma_pop_keeps_fifo(p.channel);
            lemma_count_update(p.workers, i0, q.workers[i0], WorkerState::Executing);
            lemma_count_update(p.workers, i0, q.workers[i0], WorkerState::Failed);
            assert forall|i: int| 0 <= i < q.workers.len() implies #[trigger] q.worker_ok(i) by {
                assert(p.worker_ok(i));
            }
            assert forall|k: int| 0 <= k < q.completed.len() implies #[trigger] q.entry_ok(k) by {
                assert(p.entry_ok(k));
            }
            assert forall|i: int, j: int|
                0 <= i < j < q.workers.len() && (#[trigger] q.workers[i]).ticket is Some implies (
            #[trigger] q.workers[j]).ticket != q.workers[i].ticket by {
                assert(p.worker_ok(i));
                assert(p.worker_ok(j));
            }
            assert forall|i: int, k: int|
                0 <= i < q.workers.len() && 0 <= k < q.completed.len() && (
                #[trigger] q.workers[i]).ticket is Some implies ({
                let t = q.workers[i].ticket->0;
                let c = #[trigger] q.completed[k];
                c.ticket != t && (c.worker == i ==> c.ticket < t)
            }) by {
                assert(p.entry_ok(k));
            }
        },
        Event::Complete(id) => {
            let i0 = id as int;
            lemma_count_update(p.workers, i0, q.workers[i0], WorkerState::Executing);
            lemma_count_update(p.workers, i0, q.workers[i0], WorkerState::Failed);
            assert(p.worker_ok(i0));
            assert forall|i: int| 0 <= i < q.workers.len() implies #[trigger] q.worker_ok(i) by {
                assert(p.worker_ok(i));
            }
            assert forall|k: int| 0 <= k < q.completed.len() implies #[trigger] q.entry_ok(k) by {
                if k < p.completed.len() {
                    assert(p.entry_ok(k));
                }
            }
        },
        Event::Fail(id) => {
            let i0 = id as int;
            lemma_count_update(p.workers, i0, q.workers[i0], WorkerState::Executing);
            lemma_count_update(p.workers, i0, q.workers[i0], WorkerState::Failed);
            assert forall|i: int| 0 <= i < q.workers.len() implies #[trigger] q.worker_ok(i) by {
                assert(p.worker_ok(i));
            }
            assert forall|k: int| 0 <= k < q.completed.len() implies #[trigger] q.entry_ok(k) by {
                assert(p.entry_ok(k));
            }
        },
        Event::Release => {
            assert forall|i: int| 0 <= i < q.workers.len() implies #[trigger] q.worker_ok(i) by {
                assert(p.worker_ok(i));
            }
            assert forall|k: int| 0 <= k < q.completed.len() implies #[trigger] q.entry_ok(k) by {
                assert(p.entry_ok(k));
            }
        },
    }
}

} // verus!
