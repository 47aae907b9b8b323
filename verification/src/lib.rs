//! A fixed-size pool of workers that take jobs from one shared queue.
//!
//! The crate holds the whole dispatch of such a pool as a verified state
//! machine: which worker gets which job, in what order jobs leave the queue,
//! what becomes of a worker whose job fails, and what is left to do once the
//! owner lets go of the pool. It starts no thread and runs no job itself. A
//! caller that drives it from threads gives every worker one thread, keeps
//! the pool behind one lock, and lets each thread ask for its next job, run
//! it outside the lock, and report how it ended.
//!
//! - [`ThreadPool`] is the pool: `build` and `execute` on the side of the
//!   owner, `next_job`, `job_done` and `job_failed` on the side of the
//!   workers.
//! - [`channel`] is the queue between the two sides, [`worker`] the state of
//!   one worker.
//! - [`model`] gives the mathematical state of a pool, the events that move
//!   it and the invariant that they keep; [`laws`] proves from it what holds
//!   of every pool.

pub mod channel;
pub mod error;
pub mod laws;
pub mod model;
pub mod pool;
pub mod worker;

pub use channel::Dispatch;
pub use error::PoolCreationError;
pub use pool::ThreadPool;
pub use worker::WorkerState;
