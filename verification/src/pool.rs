//! The pool: a fixed set of workers and the queue that feeds them.

use crate::laws::{lemma_fresh_inv, lemma_step_inv};
use crate::message::Message;
use crate::model::{lemma_running_bounds, running, terminates, Event, PoolState};
use crate::queue::JobQueue;
use crate::worker::{Action, Worker};
use vstd::prelude::*;

verus! {

/// A pool of a fixed number of workers that run the jobs submitted to it,
/// each job once, on whichever worker comes for it first.
///
/// `T` is the type of a job and `H` the type of the handle by which a
/// worker's thread is joined. The pool never looks into either. It is
/// meant to sit behind a lock: submitters call `execute`, each worker
/// thread calls `receive` with its number and runs what it was handed
/// after it has released the lock, and whoever tears the pool down calls
/// `shutdown` and joins the handles that it returns.
pub struct ThreadPool<T, H> {
    workers: Vec<Worker<H>>,
    queue: JobQueue<T>,
}

/// The handles among `threads`, in their order, each with the number of the
/// worker that held it.
pub open spec fn held<H>(threads: Seq<Option<H>>) -> Seq<(usize, H)>
    decreases threads.len(),
{
    if threads.len() == 0 {
        Seq::empty()
    } else {
        match threads.last() {
            Some(thread) => held(threads.drop_last()).push(
                ((threads.len() - 1) as usize, thread),
            ),
            None => held(threads.drop_last()),
        }
    }
}

/// `size` workers without a handle.
pub open spec fn no_threads<H>(size: nat) -> Seq<Option<H>> {
    Seq::new(size, |i: int| None::<H>)
}

impl<T, H> View for ThreadPool<T, H> {
    type V = PoolState<T>;

    /// The pool as a state of the machine that it follows.
    closed spec fn view(&self) -> PoolState<T> {
        PoolState {
            queue: self.queue@,
            closed: self.queue.spec_closed(),
            stopped: Seq::new(self.workers@.len(), |i: int| self.workers@[i].spec_stopped()),
        }
    }
}

impl<T, H> ThreadPool<T, H> {
    /// For each worker, by its number, the handle that it holds.
    pub closed spec fn threads(&self) -> Seq<Option<H>> {
        Seq::new(self.workers@.len(), |i: int| self.workers@[i].spec_thread())
    }

    /// True where each worker carries its place in the pool as its number.
    pub closed spec fn numbered(&self) -> bool {
        forall|i: int| 0 <= i < self.workers@.len() ==> self.workers@[i].spec_id() == i
    }

    /// What every pool satisfies from `new` on.
    pub open spec fn wf(&self) -> bool {
        &&& self@.inv()
        &&& self.numbered()
        &&& self.threads().len() == self@.size()
    }

    /// A pool of `size` workers, all of them running, with an empty queue.
    /// The workers hold no handle yet: `attach` gives each the handle of the
    /// thread that was started for it.
    ///
    /// There is no pool without workers.
    pub fn new(size: usize) -> (pool: Self)
        requires
            size > 0,
        ensures
            pool.wf(),
            pool@ == PoolState::<T>::fresh(size as nat),
            pool.threads() == no_threads::<H>(size as nat),
    {
        let mut workers: Vec<Worker<H>> = Vec::new();
        let mut id: usize = 0;
        while id < size
            invariant
                id <= size,
                workers@.len() == id,
                forall|i: int|
                    0 <= i < id ==> {
                        &&& (#[trigger] workers@[i]).spec_id() == i
                        &&& !workers@[i].spec_stopped()
                        &&& workers@[i].spec_thread() is None
                    },
            decreases size - id,
        {
            workers.push(Worker::new(id));
            id += 1;
        }
        let pool = ThreadPool { workers, queue: JobQueue::new() };
        proof {
            lemma_fresh_inv::<T>(size as nat);
            assert(pool@.stopped =~= PoolState::<T>::fresh(size as nat).stopped);
        }
        pool
    }

    /// The number of workers, which never changes.
    pub fn size(&self) -> (size: usize)
        ensures
            size == self@.size(),
    {
        self.workers.len()
    }

    /// Whether the pool has been shut down.
    pub fn is_closed(&self) -> (closed: bool)
        ensures
            closed == self@.closed,
    {
        self.queue.is_closed()
    }

    /// How many messages wait for a worker.
    pub fn pending(&self) -> (n: usize)
        ensures
            n == self@.queue.len(),
    {
        self.queue.len()
    }

    /// The worker with the number `id`.
    pub fn worker(&self, id: usize) -> (worker: &Worker<H>)
        requires
            self.wf(),
            id < self@.size(),
        ensures
            worker.spec_id() == id,
            worker.spec_stopped() == self@.stopped[id as int],
            worker.spec_thread() == self.threads()[id as int],
    {
        &self.workers[id]
    }

    /// Whether the worker `id` has stopped.
    pub fn is_stopped(&self, id: usize) -> (stopped: bool)
        requires
            id < self@.size(),
        ensures
            stopped == self@.stopped[id as int],
    {
        self.workers[id].is_stopped()
    }

    /// How many workers have not stopped.
    pub fn running(&self) -> (n: usize)
        ensures
            n == running(self@.stopped),
            n == 0 <==> self@.all_stopped(),
    {
        let mut n: usize = 0;
        let mut i: usize = 0;
        while i < self.workers.len()
            invariant
                i <= self.workers@.len(),
                self@.stopped.len() == self.workers@.len(),
                n == running(self@.stopped.take(i as int)),
                n <= i,
            decreases self.workers@.len() - i,
        {
            proof {
                assert(self@.stopped.take(i + 1).drop_last() =~= self@.stopped.take(i as int));
            }
            if !self.workers[i].is_stopped() {
                n += 1;
            }
            i += 1;
        }
        proof {
            assert(self@.stopped.take(i as int) =~= self@.stopped);
            lemma_running_bounds(self@.stopped);
        }
        n
    }

    /// Gives the worker `id` the handle of its thread, and hands back the
    /// one it held before.
    pub fn attach(&mut self, id: usize, thread: H) -> (before: Option<H>)
        requires
            old(self).wf(),
            id < old(self)@.size(),
        ensures
            final(self).wf(),
            final(self)@ == old(self)@,
            before == old(self).threads()[id as int],
            final(self).threads() == old(self).threads().update(id as int, Some(thread)),
    {
        let before = self.workers[id].attach(thread);
        proof {
            assert(self@.stopped =~= old(self)@.stopped);
        }
        before
    }

    /// Submits `job`: it is put behind all that waits, and some worker will
    /// come for it.
    ///
    /// A pool that was shut down takes no job.
    pub fn execute(&mut self, job: T)
        requires
            old(self).wf(),
            !old(self)@.closed,
        ensures
            final(self).wf(),
            final(self)@ == old(self)@.submit(job),
            final(self).threads() == old(self).threads(),
    {
        let _ = self.queue.enqueue(Message::Job(job));
        proof {
            lemma_step_inv(old(self)@, Event::Submit(job));
        }
    }

    /// The worker `id` comes for its next message. It is told what to do:
    /// run a job, exit, or, with `None`, wait until something is submitted
    /// and come again. The job that it is told to run has left the queue,
    /// so no other worker will be handed it.
    pub fn receive(&mut self, id: usize) -> (action: Option<Action<T>>)
        requires
            old(self).wf(),
            id < old(self)@.size(),
        ensures
            final(self).wf(),
            final(self)@ == old(self)@.receive(id as int),
            action == old(self)@.action(id as int),
            final(self).threads() == old(self).threads(),
    {
        if self.workers[id].is_stopped() {
            return Some(Action::Exit);
        }
        match self.queue.dequeue() {
            None => None,
            Some(message) => {
                let action = self.workers[id].handle(message);
                proof {
                    lemma_step_inv(old(self)@, Event::Receive(id as int));
                    assert(self@.stopped =~= old(self)@.receive(id as int).stopped);
                }
                Some(action)
            },
        }
    }

    /// Shuts the pool down. One signal to terminate for each worker is put
    /// behind all that waits, so every job submitted up to now is handed out
    /// before the first worker stops, and the pool takes no more jobs. The
    /// handles of the workers are taken out of the pool and returned in the
    /// order of the workers, each with the number of its worker, for the
    /// caller to join: once all of them have finished, every worker has
    /// stopped.
    ///
    /// A second shutdown sends nothing and finds no handle.
    pub fn shutdown(&mut self) -> (handles: Vec<(usize, H)>)
        requires
            old(self).wf(),
        ensures
            final(self).wf(),
            final(self)@ == old(self)@.shutdown(),
            final(self).threads() == no_threads::<H>(old(self)@.size()),
            handles@ == held(old(self).threads()),
    {
        let size = self.workers.len();
        if !self.queue.is_closed() {
            let mut sent: usize = 0;
            while sent < size
                invariant
                    sent <= size,
                    !self.queue.spec_closed(),
                    self.queue@ == old(self).queue@ + terminates::<T>(sent as nat),
                    self.workers == old(self).workers,
                decreases size - sent,
            {
                let _ = self.queue.enqueue(Message::Terminate);
                sent += 1;
            }
            self.queue.close();
        }
        proof {
            lemma_step_inv(old(self)@, Event::Shutdown);
        }
        let mut handles: Vec<(usize, H)> = Vec::new();
        let mut i: usize = 0;
        while i < size
            invariant
                i <= size,
                size == self.workers@.len(),
                size == old(self).workers@.len(),
                self@ == old(self)@.shutdown(),
                forall|k: int|
                    0 <= k < size ==> {
                        &&& (#[trigger] self.workers@[k]).spec_id() == old(self).workers@[k].spec_id()
                        &&& self.workers@[k].spec_stopped() == old(self).workers@[k].spec_stopped()
                        &&& self.workers@[k].spec_thread() == if k < i {
                            None
                        } else {
                            old(self).workers@[k].spec_thread()
                        }
                    },
                handles@ == held(old(self).threads().take(i as int)),
            decreases size - i,
        {
            let ghost stopped = self@.stopped;
            let thread = self.workers[i].take_thread();
            proof {
                assert(old(self).threads().take(i + 1).drop_last() =~= old(self).threads().take(
                    i as int,
                ));
                assert(self@.stopped =~= stopped);
            }
            match thread {
                Some(handle) => {
                    handles.push((i, handle));
                },
                None => {},
            }
            i += 1;
        }
        proof {
            assert(old(self).threads().take(i as int) =~= old(self).threads());
        }
        handles
    }
}

} // verus!
