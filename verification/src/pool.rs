//! The pool: a fixed set of workers and the channel that feeds them.

use crate::channel::{Dispatch, DispatchChannel};
use crate::error::{zero_size_message, PoolCreationError};
use crate::model::{
    count_in, lemma_counts_partition, lemma_fresh_inv, lemma_step_keeps_inv,
    Completion, Event, PoolView,
};
use crate::worker::{Worker, WorkerState, WorkerView};
use vstd::prelude::*;

verus! {

/// A pool of a fixed number of workers that take jobs of type `J` from one
/// shared queue, oldest first.
///
/// The pool holds the state of the dispatch and decides every step of it. It
/// never runs a job: a job is handed to the caller on behalf of a worker, and
/// the caller reports how it ended. Every step takes the pool by exclusive
/// reference, so no two workers are ever at the queue at once, while the jobs
/// themselves run away from the pool, side by side.
pub struct ThreadPool<J> {
    workers: Vec<Worker>,
    channel: DispatchChannel<J>,
    completed: Ghost<Seq<Completion>>,
}

impl<J> View for ThreadPool<J> {
    type V = PoolView<J>;

    closed spec fn view(&self) -> PoolView<J> {
        PoolView {
            workers: Seq::new(self.workers@.len(), |i: int| self.workers@[i]@),
            channel: self.channel@,
            completed: self.completed@,
        }
    }
}

impl<J> ThreadPool<J> {
    /// The pool is in a state that satisfies the invariant of the dispatch.
    pub open spec fn wf(&self) -> bool {
        self@.inv()
    }

    /// Builds a pool of `size` workers, with the identities `0` to `size - 1`,
    /// all of them waiting. A pool of no workers is refused.
    pub fn build(size: usize) -> (built: Result<ThreadPool<J>, PoolCreationError>)
        ensures
            match built {
                Ok(pool) => {
                    &&& size >= 1
                    &&& pool.wf()
                    &&& pool@ == PoolView::<J>::fresh(size as nat)
                    &&& pool@.live_workers() == size
                },
                Err(err) => size == 0 && err.message_view() == zero_size_message(),
            },
    {
        broadcast use vstd::string::to_string_from_display_ensures_for_str;

        match size {
            0 => Err(PoolCreationError::InvalidSize("ThreadPool cannot be zero.".to_string())),
            _ => Ok(
                {
                    let channel = DispatchChannel::new();
                    let mut workers: Vec<Worker> = Vec::new();
                    for id in 0..size
                        invariant
                            workers@.len() == id,
                            forall|i: int|
                                0 <= i < id ==> (#[trigger] workers@[i])@ == WorkerView::fresh(
                                    i as nat,
                                ),
                    {
                        workers.push(Worker::new(id));
                    }
                    let pool = ThreadPool { workers, channel, completed: Ghost(Seq::empty()) };
                    proof {
                        assert(pool@.workers =~= PoolView::<J>::fresh(size as nat).workers);
                        lemma_fresh_inv::<J>(size as nat);
                    }
                    pool
                },
            ),
        }
    }

    /// Submits `job`: it joins the queue behind every job submitted before it.
    /// The call does not wait for the job to start.
    ///
    /// A pool that was released, or in which no worker is live any more, has
    /// nobody to receive a job: nothing may be submitted to it.
    pub fn execute(&mut self, job: J)
        requires
            old(self).wf(),
            old(self)@.channel.open,
            old(self)@.live_workers() > 0,
        ensures
            final(self).wf(),
            final(self)@ == old(self)@.apply(Event::Submit(job)),
    {
        proof {
            lemma_step_keeps_inv(self@, Event::Submit(job));
        }
        self.channel.push(job);
    }

    /// The worker `id`, which waits, asks for its next job. With a job in the
    /// queue it gets the oldest one and is now running it; with none it is
    /// told to wait while the pool is held, and to end once the pool was
    /// released.
    pub fn next_job(&mut self, id: usize) -> (next: Dispatch<J>)
        requires
            old(self).wf(),
            old(self)@.worker_is(id as nat, WorkerState::Idle),
        ensures
            final(self).wf(),
            final(self)@ == old(self)@.apply(Event::Receive(id as nat)),
            next == old(self)@.channel.next(),
    {
        proof {
            lemma_step_keeps_inv(self@, Event::Receive(id as nat));
            assert(self@.worker_ok(id as int));
        }
        let next = self.workers[id].receive(&mut self.channel);
        assert(self@.workers =~= old(self)@.apply(Event::Receive(id as nat)).workers);
        next
    }

    /// The job that the worker `id` was running has come to its end: it joins
    /// the completion log, and the worker waits again.
    pub fn job_done(&mut self, id: usize)
        requires
            old(self).wf(),
            old(self)@.worker_is(id as nat, WorkerState::Executing),
        ensures
            final(self).wf(),
            final(self)@ == old(self)@.apply(Event::Complete(id as nat)),
    {
        proof {
            lemma_step_keeps_inv(self@, Event::Complete(id as nat));
            assert(self@.worker_ok(id as int));
        }
        let ghost ticket = self@.workers[id as int].ticket->0;
        self.workers[id].complete();
        self.completed = Ghost(self.completed@.push(Completion { ticket, worker: id as nat }));
        assert(self@.workers =~= old(self)@.apply(Event::Complete(id as nat)).workers);
    }

    /// The job that the worker `id` was running has failed: the worker ends
    /// and is not replaced. The queue and the other workers are untouched.
    pub fn job_failed(&mut self, id: usize)
        requires
            old(self).wf(),
            old(self)@.worker_is(id as nat, WorkerState::Executing),
        ensures
            final(self).wf(),
            final(self)@ == old(self)@.apply(Event::Fail(id as nat)),
    {
        proof {
            lemma_step_keeps_inv(self@, Event::Fail(id as nat));
            assert(self@.worker_ok(id as int));
        }
        self.workers[id].fail();
        assert(self@.workers =~= old(self)@.apply(Event::Fail(id as nat)).workers);
    }

    /// The owner lets go of the pool: nothing can be submitted any more. The
    /// call waits for no worker, and what is queued stays queued.
    pub fn release(&mut self)
        requires
            old(self).wf(),
        ensures
            final(self).wf(),
            final(self)@ == old(self)@.apply(Event::Release),
    {
        proof {
            lemma_step_keeps_inv(self@, Event::Release);
        }
        self.channel.close();
    }

    /// The number of workers the pool was built with.
    pub fn size(&self) -> (size: usize)
        ensures
            size == self@.size(),
            self.wf() ==> size >= 1,
    {
        self.workers.len()
    }

    /// Whether the owner still holds the pool.
    pub fn is_open(&self) -> (open: bool)
        ensures
            open == self@.channel.open,
    {
        self.channel.is_open()
    }

    /// The number of jobs that wait for a worker.
    pub fn queued(&self) -> (len: usize)
        ensures
            len == self@.queued().len(),
    {
        self.channel.len()
    }

    /// The state of the worker `id`, if there is such a worker.
    pub fn worker_state(&self, id: usize) -> (state: Option<WorkerState>)
        ensures
            id < self@.size() ==> state == Some(self@.workers[id as int].state),
            id >= self@.size() ==> state is None,
    {
        if id < self.workers.len() {
            Some(self.workers[id].state())
        } else {
            None
        }
    }

    /// The number of workers that are in `state`.
    pub fn count(&self, state: WorkerState) -> (n: usize)
        ensures
            n == self@.count(state),
    {
        let mut n: usize = 0;
        for i in 0..self.workers.len()
            invariant
                n == count_in(self@.workers.take(i as int), state),
                n <= i,
        {
            proof {
                let upto = self@.workers.take(i + 1);
                assert(upto.drop_last() =~= self@.workers.take(i as int));
            }
            if self.workers[i].state() == state {
                n += 1;
            }
        }
        assert(self@.workers.take(self.workers@.len() as int) =~= self@.workers);
        n
    }

    /// The number of workers whose loop still runs.
    pub fn live_workers(&self) -> (n: usize)
        ensures
            n == self@.live_workers(),
    {
        let idle = self.count(WorkerState::Idle);
        let executing = self.count(WorkerState::Executing);
        proof {
            lemma_counts_partition(self@.workers);
            assert(idle + executing <= self.workers.len());
        }
        idle + executing
    }

    /// The number of jobs that are being run at this moment.
    pub fn in_flight(&self) -> (n: usize)
        ensures
            n == self@.in_flight(),
            n <= self@.size(),
    {
        proof {
            lemma_counts_partition(self@.workers);
        }
        self.count(WorkerState::Executing)
    }
}

} // verus!
