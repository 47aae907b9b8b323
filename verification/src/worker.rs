//! A worker: an identity and the state of its loop. The loop itself runs
//! elsewhere; what it decides is decided here.

use crate::channel::{ChannelView, Dispatch, DispatchChannel};
use vstd::prelude::*;

verus! {

/// Where a worker stands in its loop.
#[derive(Clone, Copy, Debug, PartialEq, Eq, Structural)]
pub enum WorkerState {
    /// Waiting for a job: blocked on the channel, or about to ask it.
    Idle,
    /// Running the job it took, away from the channel.
    Executing,
    /// Ended because the channel was closed and empty.
    Closed,
    /// Ended because the job it ran failed. It is not replaced.
    Failed,
}

impl WorkerState {
    /// Whether the worker's loop still runs.
    pub open spec fn live(self) -> bool {
        self is Idle || self is Executing
    }

    /// Whether the worker's loop still runs.
    #[verifier::when_used_as_spec(live)]
    pub fn is_live(self) -> (live: bool)
        ensures
            live == self.live(),
    {
        match self {
            WorkerState::Idle => true,
            WorkerState::Executing => true,
            WorkerState::Closed => false,
            WorkerState::Failed => false,
        }
    }
}

/// The mathematical state of a worker.
pub struct WorkerView {
    /// The worker's identity: its position in the pool.
    pub id: nat,
    /// Where its loop stands.
    pub state: WorkerState,
    /// The submission index of the job it took last and did not complete: the
    /// job it runs, or the job it ended on.
    pub ticket: Option<nat>,
}

impl WorkerView {
    /// A worker as it is created.
    pub open spec fn fresh(id: nat) -> Self {
        WorkerView { id, state: WorkerState::Idle, ticket: None }
    }

    /// A worker holds a submission index exactly while it runs a job and
    /// after it has ended on one.
    pub open spec fn wf(self) -> bool {
        self.ticket is Some <==> self.state is Executing || self.state is Failed
    }

    /// The worker after it asked `channel` for the next job: with a job in the
    /// queue it runs the head, whose submission index it now holds; with none
    /// it keeps waiting while the channel is open and ends once it is closed.
    pub open spec fn receive<J>(self, channel: ChannelView<J>) -> Self {
        match channel.next() {
            Dispatch::Run(_) => WorkerView {
                state: WorkerState::Executing,
                ticket: Some(channel.taken()),
                ..self
            },
            Dispatch::Wait => self,
            Dispatch::Stop => WorkerView { state: WorkerState::Closed, ..self },
        }
    }

    /// The worker after its job ran to completion.
    pub open spec fn complete(self) -> Self {
        WorkerView { state: WorkerState::Idle, ticket: None, ..self }
    }

    /// The worker after its job failed: it keeps the job's index and never
    /// takes another.
    pub open spec fn fail(self) -> Self {
        WorkerView { state: WorkerState::Failed, ..self }
    }
}

/// One worker of a pool.
pub struct Worker {
    id: usize,
    state: WorkerState,
    ticket: Ghost<Option<nat>>,
}

impl View for Worker {
    type V = WorkerView;

    closed spec fn view(&self) -> WorkerView {
        WorkerView { id: self.id as nat, state: self.state, ticket: self.ticket@ }
    }
}

impl Worker {
    /// What the worker holds agrees with where its loop stands.
    pub open spec fn wf(&self) -> bool {
        self@.wf()
    }

    /// Creates the worker `id`, waiting for its first job.
    pub fn new(id: usize) -> (worker: Worker)
        ensures
            worker.wf(),
            worker@ == WorkerView::fresh(id as nat),
    {
        Worker { id, state: WorkerState::Idle, ticket: Ghost(None) }
    }

    /// The worker's identity.
    pub fn id(&self) -> (id: usize)
        ensures
            id == self@.id,
    {
        self.id
    }

    /// Where the worker's loop stands.
    pub fn state(&self) -> (state: WorkerState)
        ensures
            state == self@.state,
    {
        self.state
    }

    /// One turn at the channel: the worker takes the head of the queue and
    /// starts to run it, or learns that it has to wait, or that it has to end.
    pub fn receive<J>(&mut self, channel: &mut DispatchChannel<J>) -> (next: Dispatch<J>)
        requires
            old(self).wf(),
            old(self)@.state is Idle,
            old(channel).wf(),
        ensures
            final(self).wf(),
            final(channel).wf(),
            final(channel)@ == old(channel)@.pop(),
            final(self)@ == old(self)@.receive(old(channel)@),
            next == old(channel)@.next(),
    {
        let ghost ticket = channel@.taken();
        let next = channel.take();
        match &next {
            Dispatch::Run(_) => {
                self.state = WorkerState::Executing;
                self.ticket = Ghost(Some(ticket));
            },
            Dispatch::Wait => {},
            Dispatch::Stop => {
                self.state = WorkerState::Closed;
            },
        }
        next
    }

    /// The job that the worker ran has returned: the worker waits again.
    pub fn complete(&mut self)
        requires
            old(self).wf(),
            old(self)@.state is Executing,
        ensures
            final(self).wf(),
            final(self)@ == old(self)@.complete(),
    {
        self.state = WorkerState::Idle;
        self.ticket = Ghost(None);
    }

    /// The job that the worker ran has failed: the worker ends.
    pub fn fail(&mut self)
        requires
            old(self).wf(),
            old(self)@.state is Executing,
        ensures
            final(self).wf(),
            final(self)@ == old(self)@.fail(),
    {
        self.state = WorkerState::Failed;
    }
}

} // verus!
