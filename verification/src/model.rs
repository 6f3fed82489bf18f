//! The pool as a state machine: the queue, whether it is closed, and which
//! workers have stopped. Every operation of the pool is one step of it.

use crate::message::Message;
use crate::worker::{react, Action};
use vstd::prelude::*;

verus! {

/// The state of a pool.
pub struct PoolState<T> {
    /// The messages that wait, the next to leave first.
    pub queue: Seq<Message<T>>,
    /// True once the pool has been shut down.
    pub closed: bool,
    /// For each worker, by its number, whether it has stopped.
    pub stopped: Seq<bool>,
}

/// What can happen to a pool.
pub enum Event<T> {
    /// Somebody submits a job.
    Submit(T),
    /// The worker with this number comes for its next message.
    Receive(int),
    /// The pool is shut down.
    Shutdown,
}

/// How many of the workers have not stopped.
pub open spec fn running(stopped: Seq<bool>) -> nat
    decreases stopped.len(),
{
    if stopped.len() == 0 {
        0
    } else if stopped.last() {
        running(stopped.drop_last())
    } else {
        running(stopped.drop_last()) + 1
    }
}

/// `n` signals to terminate.
pub open spec fn terminates<T>(n: nat) -> Seq<Message<T>> {
    Seq::new(n, |i: int| Message::Terminate)
}

/// The jobs among the messages of `queue`, in their order.
pub open spec fn jobs_of<T>(queue: Seq<Message<T>>) -> Seq<T>
    decreases queue.len(),
{
    if queue.len() == 0 {
        Seq::empty()
    } else {
        match queue.last() {
            Message::Job(job) => jobs_of(queue.drop_last()).push(job),
            Message::Terminate => jobs_of(queue.drop_last()),
        }
    }
}

/// True where a shutdown is among the events of `trace`.
pub open spec fn shuts_down<T>(trace: Seq<Event<T>>) -> bool {
    exists|i: int| 0 <= i < trace.len() && #[trigger] trace[i] is Shutdown
}

/// The jobs that `trace` submits before its first shutdown, in their order.
pub open spec fn submitted_in_time<T>(trace: Seq<Event<T>>) -> Seq<T>
    decreases trace.len(),
{
    if trace.len() == 0 {
        Seq::empty()
    } else {
        match trace.last() {
            Event::Submit(job) if !shuts_down(trace.drop_last()) => submitted_in_time(
                trace.drop_last(),
            ).push(job),
            _ => submitted_in_time(trace.drop_last()),
        }
    }
}

impl<T> PoolState<T> {
    /// A pool of `size` workers right after it was made: nothing waits, and
    /// every worker runs.
    pub open spec fn fresh(size: nat) -> Self {
        PoolState { queue: Seq::empty(), closed: false, stopped: Seq::new(size, |i: int| false) }
    }

    /// The number of workers, stopped or not.
    pub open spec fn size(self) -> nat {
        self.stopped.len()
    }

    /// True where `id` is the number of a worker that has not stopped.
    pub open spec fn is_running(self, id: int) -> bool {
        0 <= id < self.stopped.len() && !self.stopped[id]
    }

    /// True where every worker has stopped.
    pub open spec fn all_stopped(self) -> bool {
        forall|id: int| 0 <= id < self.stopped.len() ==> self.stopped[id]
    }

    /// The pool after `job` was submitted. A pool that was shut down takes
    /// no job.
    pub open spec fn submit(self, job: T) -> Self {
        if self.closed {
            self
        } else {
            PoolState { queue: self.queue.push(Message::Job(job)), ..self }
        }
    }

    /// What the worker `id` is told when it comes for a message: `None`
    /// where it has to wait, because it runs and nothing is in the queue. A
    /// worker that has stopped is told to exit, whatever waits.
    pub open spec fn action(self, id: int) -> Option<Action<T>> {
        if !self.is_running(id) {
            Some(Action::Exit)
        } else if self.queue.len() == 0 {
            None
        } else {
            Some(react(self.queue[0]).1)
        }
    }

    /// The pool after the worker `id` came for a message. A running worker
    /// takes the message that waited longest, and has stopped afterwards
    /// if that was the signal to terminate.
    pub open spec fn receive(self, id: int) -> Self {
        if !self.is_running(id) || self.queue.len() == 0 {
            self
        } else {
            PoolState {
                queue: self.queue.drop_first(),
                stopped: self.stopped.update(id, react(self.queue[0]).0),
                ..self
            }
        }
    }

    /// The pool after it was shut down: one signal to terminate for each
    /// worker stands behind all that waited, and no more jobs are taken. A
    /// second shutdown changes nothing.
    pub open spec fn shutdown(self) -> Self {
        if self.closed {
            self
        } else {
            PoolState { queue: self.queue + terminates(self.size()), closed: true, ..self }
        }
    }

    /// The pool after `event`.
    pub open spec fn step(self, event: Event<T>) -> Self {
        match event {
            Event::Submit(job) => self.submit(job),
            Event::Receive(id) => self.receive(id),
            Event::Shutdown => self.shutdown(),
        }
    }

    /// The job that `event` puts into the queue, if it puts one.
    pub open spec fn accepts(self, event: Event<T>) -> Option<T> {
        match event {
            Event::Submit(job) if !self.closed => Some(job),
            _ => None,
        }
    }

    /// The job that `event` hands to a worker, if it hands one out.
    pub open spec fn delivers(self, event: Event<T>) -> Option<T> {
        match event {
            Event::Receive(id) => match self.action(id) {
                Some(Action::Run(job)) => Some(job),
                _ => None,
            },
            _ => None,
        }
    }

    /// The pool after the events of `trace`, one after the other.
    pub open spec fn run(self, trace: Seq<Event<T>>) -> Self
        decreases trace.len(),
    {
        if trace.len() == 0 {
            self
        } else {
            self.run(trace.drop_last()).step(trace.last())
        }
    }

    /// The jobs that the pool took into its queue in the course of `trace`,
    /// in the order in which they were submitted.
    pub open spec fn accepted(self, trace: Seq<Event<T>>) -> Seq<T>
        decreases trace.len(),
    {
        if trace.len() == 0 {
            Seq::empty()
        } else {
            match self.run(trace.drop_last()).accepts(trace.last()) {
                Some(job) => self.accepted(trace.drop_last()).push(job),
                None => self.accepted(trace.drop_last()),
            }
        }
    }

    /// The jobs that the pool handed to its workers in the course of
    /// `trace`, in the order in which they were handed out.
    pub open spec fn delivered(self, trace: Seq<Event<T>>) -> Seq<T>
        decreases trace.len(),
    {
        if trace.len() == 0 {
            Seq::empty()
        } else {
            match self.run(trace.drop_last()).delivers(trace.last()) {
                Some(job) => self.delivered(trace.drop_last()).push(job),
                None => self.delivered(trace.drop_last()),
            }
        }
    }

    /// True where `trace` is nothing but turns of workers, each taken by a
    /// worker that had not stopped when it came.
    pub open spec fn turns_of_running(self, trace: Seq<Event<T>>) -> bool
        decreases trace.len(),
    {
        trace.len() == 0 || {
            &&& self.turns_of_running(trace.drop_last())
            &&& match trace.last() {
                Event::Receive(id) => self.run(trace.drop_last()).is_running(id),
                _ => false,
            }
        }
    }

    /// What holds of a pool in every state that it can reach.
    ///
    /// Before the shutdown all workers run and only jobs wait. After it the
    /// queue ends in as many signals to terminate as workers still run,
    /// with nothing but jobs before them, and no job waits any more once a
    /// worker has stopped.
    pub open spec fn inv(self) -> bool {
        let left = running(self.stopped);
        &&& self.size() > 0
        &&& if self.closed {
            &&& left <= self.queue.len()
            &&& forall|i: int|
                0 <= i < self.queue.len() ==> (#[trigger] self.queue[i] is Terminate <==> i
                    >= self.queue.len() - left)
            &&& left < self.size() ==> self.queue.len() == left
        } else {
            &&& left == self.size()
            &&& forall|i: int| 0 <= i < self.queue.len() ==> #[trigger] self.queue[i] is Job
        }
    }
}

/// Counting the workers that run: no more than there are workers, all of
/// them exactly where none has stopped, and none exactly where all have.
pub proof fn lemma_running_bounds(stopped: Seq<bool>)
    ensures
        running(stopped) <= stopped.len(),
        running(stopped) == stopped.len() <==> forall|i: int|
            0 <= i < stopped.len() ==> !stopped[i],
        running(stopped) == 0 <==> forall|i: int| 0 <= i < stopped.len() ==> stopped[i],
    decreases stopped.len(),
{
    if stopped.len() > 0 {
        let front = stopped.drop_last();
        lemma_running_bounds(front);
        if running(stopped) == stopped.len() {
            assert forall|i: int| 0 <= i < stopped.len() implies !stopped[i] by {
                if i < front.len() {
                    assert(!front[i]);
                }
            }
        }
        if running(stopped) == 0 {
            assert forall|i: int| 0 <= i < stopped.len() implies stopped[i] by {
                if i < front.len() {
                    assert(front[i]);
                }
            }
        }
    }
}

/// A change of one worker's state changes the count of those that run by
/// that worker alone.
pub proof fn lemma_running_update(stopped: Seq<bool>, id: int, value: bool)
    requires
        0 <= id < stopped.len(),
    ensures
        running(stopped.update(id, value)) + (if stopped[id] { 0int } else { 1 }) == running(
            stopped,
        ) + (if value { 0int } else { 1 }),
    decreases stopped.len(),
{
    let after = stopped.update(id, value);
    if id == stopped.len() - 1 {
        assert(after.drop_last() =~= stopped.drop_last());
    } else {
        lemma_running_update(stopped.drop_last(), id, value);
        assert(after.drop_last() =~= stopped.drop_last().update(id, value));
    }
}

/// A message put behind the others adds its job, if it carries one, behind
/// the other jobs.
pub proof fn lemma_jobs_of_push<T>(queue: Seq<Message<T>>, message: Message<T>)
    ensures
        jobs_of(queue.push(message)) == match message {
            Message::Job(job) => jobs_of(queue).push(job),
            Message::Terminate => jobs_of(queue),
        },
{
    assert(queue.push(message).drop_last() =~= queue);
}

/// The message at the front carries the first of the jobs, if it carries
/// one.
pub proof fn lemma_jobs_of_drop_first<T>(queue: Seq<Message<T>>)
    requires
        queue.len() > 0,
    ensures
        jobs_of(queue) == match queue[0] {
            Message::Job(job) => seq![job] + jobs_of(queue.drop_first()),
            Message::Terminate => jobs_of(queue.drop_first()),
        },
    decreases queue.len(),
{
    if queue.len() == 1 {
        assert(queue.drop_last() =~= Seq::<Message<T>>::empty());
        assert(queue.drop_first() =~= Seq::<Message<T>>::empty());
    } else {
        let front = queue.drop_last();
        lemma_jobs_of_drop_first(front);
        assert(front.drop_first() =~= queue.drop_first().drop_last());
    }
}

/// Signals to terminate add no job.
pub proof fn lemma_jobs_of_terminates<T>(queue: Seq<Message<T>>, n: nat)
    ensures
        jobs_of(queue + terminates(n)) == jobs_of(queue),
    decreases n,
{
    if n > 0 {
        lemma_jobs_of_terminates(queue, (n - 1) as nat);
        assert((queue + terminates::<T>(n)).drop_last() =~= queue + terminates::<T>(
            (n - 1) as nat,
        ));
    }
}

/// A queue of nothing but jobs holds as many jobs as messages.
pub proof fn lemma_jobs_of_all_jobs<T>(queue: Seq<Message<T>>)
    requires
        forall|i: int| 0 <= i < queue.len() ==> #[trigger] queue[i] is Job,
    ensures
        jobs_of(queue).len() == queue.len(),
    decreases queue.len(),
{
    if queue.len() > 0 {
        lemma_jobs_of_all_jobs(queue.drop_last());
    }
}

/// A queue that ends in exactly `n` signals to terminate, with only jobs
/// before them, holds `n` messages more than jobs.
pub proof fn lemma_signals_counted<T>(queue: Seq<Message<T>>, n: nat)
    requires
        n <= queue.len(),
        forall|i: int|
            0 <= i < queue.len() ==> (#[trigger] queue[i] is Terminate <==> i >= queue.len() - n),
    ensures
        queue.len() - jobs_of(queue).len() == n,
    decreases n,
{
    if n == 0 {
        lemma_jobs_of_all_jobs(queue);
    } else {
        lemma_signals_counted(queue.drop_last(), (n - 1) as nat);
    }
}

} // verus!
