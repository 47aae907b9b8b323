//! The dispatch channel: an unbounded first-in, first-out queue of jobs that is
//! open while the pool's producer side is held and closed once it is released.

use std::collections::VecDeque;
use vstd::prelude::*;

verus! {

/// What a consumer is told when it asks for the next job.
pub enum Dispatch<J> {
    /// The head of the queue, removed from it and handed over.
    Run(J),
    /// Nothing is queued and the channel is open: the consumer blocks.
    Wait,
    /// Nothing is queued and the channel is closed: the consumer ends.
    Stop,
}

/// The mathematical state of a dispatch channel.
pub struct ChannelView<J> {
    /// The jobs that wait, head first.
    pub queue: Seq<J>,
    /// Whether the producer side is still held.
    pub open: bool,
    /// Every job ever pushed, in the order of the pushes.
    pub sent: Seq<J>,
}

impl<J> ChannelView<J> {
    /// The channel as it is created: open, with nothing sent.
    pub open spec fn fresh() -> Self {
        ChannelView { queue: Seq::empty(), open: true, sent: Seq::empty() }
    }

    /// How many jobs have left the queue so far.
    pub open spec fn taken(self) -> nat {
        (self.sent.len() - self.queue.len()) as nat
    }

    /// The queue is exactly what was sent and has not been taken yet, in the
    /// order of sending.
    pub open spec fn fifo(self) -> bool {
        &&& self.queue.len() <= self.sent.len()
        &&& self.queue == self.sent.subrange(self.taken() as int, self.sent.len() as int)
    }

    /// The channel after `job` was appended to its tail.
    pub open spec fn push(self, job: J) -> Self {
        ChannelView { queue: self.queue.push(job), sent: self.sent.push(job), ..self }
    }

    /// What the next consumer is told.
    pub open spec fn next(self) -> Dispatch<J> {
        if self.queue.len() > 0 {
            Dispatch::Run(self.queue[0])
        } else if self.open {
            Dispatch::Wait
        } else {
            Dispatch::Stop
        }
    }

    /// The channel after a consumer asked for the next job: the head is gone if
    /// there was one, and nothing else has changed.
    pub open spec fn pop(self) -> Self {
        if self.queue.len() > 0 {
            ChannelView { queue: self.queue.drop_first(), ..self }
        } else {
            self
        }
    }

    /// The channel after its producer side was released.
    pub open spec fn close(self) -> Self {
        ChannelView { open: false, ..self }
    }
}

/// Pushing keeps the queue in sending order and takes nothing.
pub proof fn lemma_push_keeps_fifo<J>(c: ChannelView<J>, job: J)
    requires
        c.fifo(),
    ensures
        c.push(job).fifo(),
        c.push(job).taken() == c.taken(),
{
    assert(c.push(job).queue =~= c.push(job).sent.subrange(
        c.taken() as int,
        c.push(job).sent.len() as int,
    ));
}

/// Taking the head keeps the queue in sending order; the job taken is the
/// oldest one that had not left yet.
pub proof fn lemma_pop_keeps_fifo<J>(c: ChannelView<J>)
    requires
        c.fifo(),
    ensures
        c.pop().fifo(),
        c.queue.len() > 0 ==> c.pop().taken() == c.taken() + 1,
        c.queue.len() > 0 ==> c.queue[0] == c.sent[c.taken() as int],
        c.queue.len() == 0 ==> c.pop() == c,
{
    if c.queue.len() > 0 {
        assert(c.pop().queue =~= c.sent.subrange(c.taken() as int + 1, c.sent.len() as int));
    }
}

/// An unbounded queue of jobs with one producer side and one consumer side.
pub struct DispatchChannel<J> {
    queue: VecDeque<J>,
    open: bool,
    sent: Ghost<Seq<J>>,
}

impl<J> View for DispatchChannel<J> {
    type V = ChannelView<J>;

    closed spec fn view(&self) -> ChannelView<J> {
        ChannelView { queue: self.queue@, open: self.open, sent: self.sent@ }
    }
}

impl<J> DispatchChannel<J> {
    /// The queue holds what was sent and not yet taken, oldest first.
    pub open spec fn wf(&self) -> bool {
        self@.fifo()
    }

    /// Creates an open channel with nothing queued.
    pub fn new() -> (channel: Self)
        ensures
            channel.wf(),
            channel@ == ChannelView::<J>::fresh(),
    {
        let channel = DispatchChannel {
            queue: VecDeque::new(),
            open: true,
            sent: Ghost(Seq::empty()),
        };
        assert(channel@.queue =~= channel@.sent.subrange(0, 0));
        channel
    }

    /// Appends `job` to the tail of the queue.
    pub fn push(&mut self, job: J)
        requires
            old(self).wf(),
            old(self)@.open,
        ensures
            final(self).wf(),
            final(self)@ == old(self)@.push(job),
    {
        proof {
            lemma_push_keeps_fifo(self@, job);
        }
        self.queue.push_back(job);
        self.sent = Ghost(self.sent@.push(job));
    }

    /// Removes the head of the queue and hands it over, or says why there is
    /// none: the queue is empty and the channel is open, or it is closed.
    pub fn take(&mut self) -> (next: Dispatch<J>)
        requires
            old(self).wf(),
        ensures
            final(self).wf(),
            final(self)@ == old(self)@.pop(),
            next == old(self)@.next(),
    {
        proof {
            lemma_pop_keeps_fifo(self@);
        }
        match self.queue.pop_front() {
            Some(job) => Dispatch::Run(job),
            None => if self.open {
                Dispatch::Wait
            } else {
                Dispatch::Stop
            },
        }
    }

    /// Releases the producer side: nothing can be pushed from now on. What is
    /// queued stays queued.
    pub fn close(&mut self)
        requires
            old(self).wf(),
        ensures
            final(self).wf(),
            final(self)@ == old(self)@.close(),
    {
        self.open = false;
    }

    /// Whether the producer side is still held.
    pub fn is_open(&self) -> (open: bool)
        ensures
            open == self@.open,
    {
        self.open
    }

    /// The number of jobs that wait in the queue.
    pub fn len(&self) -> (len: usize)
        ensures
            len == self@.queue.len(),
    {
        self.queue.len()
    }
}

} // verus!
