use vstd::prelude::*;

verus! {

/// What travels through the queue of a pool: a job to run, or the signal
/// that tells the worker that receives it to stop.
pub enum Message<T> {
    Job(T),
    Terminate,
}

} // verus!
