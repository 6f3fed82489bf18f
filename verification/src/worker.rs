//! One worker of a pool: what the pool keeps of it, and what it does with a
//! message.

use crate::message::Message;
use vstd::prelude::*;

verus! {

/// What a worker does once it has taken a message off the queue.
pub enum Action<T> {
    /// Run the job to its end, then come back for the next message.
    Run(T),
    /// Leave the loop: the worker has stopped for good.
    Exit,
}

/// What becomes of a running worker that is handed `message`: whether it has
/// stopped afterwards, and what it does.
pub open spec fn react<T>(message: Message<T>) -> (bool, Action<T>) {
    match message {
        Message::Job(job) => (false, Action::Run(job)),
        Message::Terminate => (true, Action::Exit),
    }
}

/// A worker as its pool sees it: its number, whether it has stopped, and
/// the handle of its thread for as long as nobody has taken it.
pub struct Worker<H> {
    id: usize,
    stopped: bool,
    thread: Option<H>,
}

impl<H> Worker<H> {
    /// The number of the worker.
    pub closed spec fn spec_id(&self) -> usize {
        self.id
    }

    /// True once the worker has been told to terminate.
    pub closed spec fn spec_stopped(&self) -> bool {
        self.stopped
    }

    /// The handle that the worker holds, if any.
    pub closed spec fn spec_thread(&self) -> Option<H> {
        self.thread
    }

    /// A running worker with the number `id` that holds no handle yet.
    pub fn new(id: usize) -> (worker: Self)
        ensures
            worker.spec_id() == id,
            !worker.spec_stopped(),
            worker.spec_thread() is None,
    {
        Worker { id, stopped: false, thread: None }
    }

    /// The number of the worker.
    #[verifier::when_used_as_spec(spec_id)]
    pub fn id(&self) -> (id: usize)
        ensures
            id == self.spec_id(),
    {
        self.id
    }

    /// Whether the worker has stopped.
    #[verifier::when_used_as_spec(spec_stopped)]
    pub fn is_stopped(&self) -> (stopped: bool)
        ensures
            stopped == self.spec_stopped(),
    {
        self.stopped
    }

    /// Whether the worker holds the handle of its thread.
    pub fn has_thread(&self) -> (held: bool)
        ensures
            held == (self.spec_thread() is Some),
    {
        self.thread.is_some()
    }

    /// Gives the worker the handle of its thread, and hands back the one it
    /// held before.
    pub fn attach(&mut self, thread: H) -> (before: Option<H>)
        ensures
            before == old(self).spec_thread(),
            final(self).spec_thread() == Some(thread),
            final(self).spec_id() == old(self).spec_id(),
            final(self).spec_stopped() == old(self).spec_stopped(),
    {
        let before = self.thread.take();
        self.thread = Some(thread);
        before
    }

    /// Takes the handle out of the worker, which holds none afterwards: a
    /// second call finds nothing to join.
    pub fn take_thread(&mut self) -> (thread: Option<H>)
        ensures
            thread == old(self).spec_thread(),
            final(self).spec_thread() is None,
            final(self).spec_id() == old(self).spec_id(),
            final(self).spec_stopped() == old(self).spec_stopped(),
    {
        self.thread.take()
    }

    /// One turn of the worker's loop: a job is handed on to be run and the
    /// worker keeps running, the signal to terminate stops it.
    pub fn handle<T>(&mut self, message: Message<T>) -> (action: Action<T>)
        requires
            !old(self).spec_stopped(),
        ensures
            (final(self).spec_stopped(), action) == react(message),
            final(self).spec_id() == old(self).spec_id(),
            final(self).spec_thread() == old(self).spec_thread(),
    {
        match message {
            Message::Job(job) => Action::Run(job),
            Message::Terminate => {
                self.stopped = true;
                Action::Exit
            },
        }
    }
}

} // verus!
