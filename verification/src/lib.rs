//! A pool of a fixed number of workers for jobs that are submitted and
//! forgotten, and the few pieces of a small web server that hands each of
//! its connections to such a pool.
//!
//! The pool is a monitor: one value that holds the queue of jobs and the
//! state of every worker. A program keeps it behind a lock. Submitters call
//! [`pool::ThreadPool::execute`]; each worker thread calls
//! [`pool::ThreadPool::receive`] while it holds the lock and runs the job
//! that it was handed after it has released it; whoever tears the pool down
//! calls [`pool::ThreadPool::shutdown`] and joins the threads. Nothing here
//! starts a thread or waits for one.
//!
//! [`model`] gives the pool as a state machine, and [`laws`] proves of that
//! machine what a pool promises: jobs are handed out once each and in the
//! order of their submission, every job submitted before the shutdown is
//! handed out before a worker stops, and a shutdown stops every worker.

pub mod laws;
pub mod message;
pub mod model;
pub mod pool;
pub mod queue;
pub mod request;
pub mod response;
pub mod worker;
