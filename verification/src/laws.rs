//! What holds of every pool, proved of the state machine that the pool
//! follows step by step.
//!
//! The pool's operations are verified to take exactly the steps of
//! [`PoolState`], so each law holds of every order in which submitters and
//! workers can reach a pool that sits behind a lock.

use crate::message::Message;
use crate::model::{
    jobs_of, lemma_jobs_of_drop_first, lemma_jobs_of_push, lemma_jobs_of_terminates,
    lemma_running_bounds, lemma_running_update, lemma_signals_counted, running, shuts_down,
    submitted_in_time, Event, PoolState,
};
use crate::worker::Action;
use vstd::prelude::*;
use vstd::seq_lib::lemma_multiset_commutative;

verus! {

/// A pool that was just made is in order.
pub proof fn lemma_fresh_inv<T>(size: nat)
    requires
        size > 0,
    ensures
        PoolState::<T>::fresh(size).inv(),
{
    lemma_running_bounds(PoolState::<T>::fresh(size).stopped);
}

/// Whichever worker of a new pool comes first after a job was submitted is
/// handed that job: every worker is ready for work from the start.
pub proof fn lemma_new_pool_ready<T>(size: nat, id: int, job: T)
    requires
        0 <= id < size,
    ensures
        PoolState::<T>::fresh(size).action(id) is None,
        PoolState::<T>::fresh(size).submit(job).action(id) == Some(Action::Run(job)),
        PoolState::<T>::fresh(size).submit(job).receive(id).queue.len() == 0,
{
}

/// Whatever happens to a pool that is in order leaves it in order.
pub proof fn lemma_step_inv<T>(state: PoolState<T>, event: Event<T>)
    requires
        state.inv(),
    ensures
        state.step(event).inv(),
{
    lemma_running_bounds(state.stopped);
    match event {
        Event::Receive(id) if state.is_running(id) && state.queue.len() > 0 => {
            lemma_running_update(state.stopped, id, state.queue[0] is Terminate);
        },
        _ => {},
    }
}

/// A pool that started in order is in order after any course of events.
pub proof fn lemma_run_inv<T>(state: PoolState<T>, trace: Seq<Event<T>>)
    requires
        state.inv(),
    ensures
        state.run(trace).inv(),
        state.run(trace).size() == state.size(),
    decreases trace.len(),
{
    if trace.len() > 0 {
        lemma_run_inv(state, trace.drop_last());
        lemma_step_inv(state.run(trace.drop_last()), trace.last());
    }
}

/// No job is lost and none is made up: at any moment the jobs that waited
/// at the start, followed by those that were accepted since, are the jobs
/// that were handed to workers, followed by those that still wait.
pub proof fn lemma_jobs_conserved<T>(state: PoolState<T>, trace: Seq<Event<T>>)
    ensures
        jobs_of(state.queue) + state.accepted(trace) == state.delivered(trace) + jobs_of(
            state.run(trace).queue,
        ),
    decreases trace.len(),
{
    if trace.len() > 0 {
        let before = state.run(trace.drop_last());
        let given = state.delivered(trace.drop_last());
        let waiting = jobs_of(before.queue);
        lemma_jobs_conserved(state, trace.drop_last());
        match trace.last() {
            Event::Submit(job) => {
                lemma_jobs_of_push(before.queue, Message::Job(job));
                assert(given + waiting.push(job) =~= (given + waiting).push(job));
            },
            Event::Shutdown => {
                lemma_jobs_of_terminates(before.queue, before.size());
            },
            Event::Receive(id) => {
                if before.queue.len() > 0 {
                    lemma_jobs_of_drop_first(before.queue);
                }
            },
        }
    }
}

/// Jobs reach the workers in the order in which they were submitted, each
/// of them at most once: what a new pool has handed out so far is the front
/// part of what it has accepted, and what it has not handed out is what
/// still waits.
pub proof fn lemma_delivered_in_order<T>(size: nat, trace: Seq<Event<T>>)
    ensures
        ({
            let start = PoolState::<T>::fresh(size);
            let waiting = jobs_of(start.run(trace).queue);
            &&& start.accepted(trace) == start.delivered(trace) + waiting
            &&& start.delivered(trace).is_prefix_of(start.accepted(trace))
        }),
{
    lemma_jobs_conserved(PoolState::<T>::fresh(size), trace);
}

/// After the shutdown the queue is empty exactly when every worker has
/// stopped, as many signals to terminate wait as workers run, and no job
/// waits any more once the first worker has stopped: the jobs leave before
/// the signals.
pub proof fn lemma_drained_when_stopped<T>(state: PoolState<T>)
    requires
        state.inv(),
        state.closed,
    ensures
        state.all_stopped() <==> state.queue.len() == 0,
        state.queue.len() - jobs_of(state.queue).len() == running(state.stopped),
        running(state.stopped) < state.size() ==> jobs_of(state.queue).len() == 0,
{
    lemma_running_bounds(state.stopped);
    lemma_signals_counted(state.queue, running(state.stopped));
}

/// After the shutdown no worker waits in vain: one that still runs finds a
/// message when it comes, and the queue is shorter by that message
/// afterwards. So the workers stop after as many turns as messages wait.
pub proof fn lemma_no_worker_starves<T>(state: PoolState<T>, id: int)
    requires
        state.inv(),
        state.closed,
        state.is_running(id),
    ensures
        state.queue.len() > 0,
        state.action(id) is Some,
        state.receive(id).queue.len() == state.queue.len() - 1,
{
    lemma_running_bounds(state.stopped);
}

/// A shutdown comes to an end: in a pool that was shut down, each turn of a
/// worker that still runs takes one message, there are no more such turns
/// than messages wait, and after as many turns as messages waited every
/// worker has stopped.
pub proof fn lemma_shutdown_completes<T>(state: PoolState<T>, trace: Seq<Event<T>>)
    requires
        state.inv(),
        state.closed,
        state.turns_of_running(trace),
    ensures
        state.run(trace).closed,
        trace.len() <= state.queue.len(),
        state.run(trace).queue.len() == state.queue.len() - trace.len(),
        trace.len() == state.queue.len() ==> state.run(trace).all_stopped(),
    decreases trace.len(),
{
    if trace.len() > 0 {
        let before = state.run(trace.drop_last());
        lemma_shutdown_completes(state, trace.drop_last());
        lemma_run_inv(state, trace.drop_last());
        match trace.last() {
            Event::Receive(id) => {
                lemma_no_worker_starves(before, id);
            },
            _ => {},
        }
    }
    lemma_run_inv(state, trace);
    lemma_drained_when_stopped(state.run(trace));
}

/// A new pool is shut down exactly once a shutdown is among the events.
pub proof fn lemma_closed_by_shutdown<T>(size: nat, trace: Seq<Event<T>>)
    ensures
        PoolState::<T>::fresh(size).run(trace).closed <==> shuts_down(trace),
    decreases trace.len(),
{
    if trace.len() > 0 {
        let front = trace.drop_last();
        lemma_closed_by_shutdown::<T>(size, front);
        if shuts_down(front) {
            let i = choose|i: int| 0 <= i < front.len() && #[trigger] front[i] is Shutdown;
            assert(trace[i] is Shutdown);
        }
        if trace.last() is Shutdown {
            assert(trace[trace.len() - 1] is Shutdown);
        }
        if shuts_down(trace) {
            let i = choose|i: int| 0 <= i < trace.len() && #[trigger] trace[i] is Shutdown;
            if i < front.len() {
                assert(front[i] is Shutdown);
            }
        }
    }
}

/// A new pool accepts exactly the jobs that are submitted before its first
/// shutdown.
pub proof fn lemma_accepted_in_time<T>(size: nat, trace: Seq<Event<T>>)
    ensures
        PoolState::<T>::fresh(size).accepted(trace) == submitted_in_time(trace),
    decreases trace.len(),
{
    if trace.len() > 0 {
        lemma_accepted_in_time::<T>(size, trace.drop_last());
        lemma_closed_by_shutdown::<T>(size, trace.drop_last());
    }
}

/// Every job that was submitted before the shutdown has been handed to a
/// worker, once and in its turn, by the time all workers have stopped:
/// whatever the order in which jobs were submitted and workers came for
/// them, once a new pool is shut down and its workers have all stopped,
/// the jobs handed out are the jobs submitted in time. Where each job
/// raises a counter by one, the counter stands at the number of such jobs.
pub proof fn lemma_all_jobs_run<T>(size: nat, trace: Seq<Event<T>>)
    requires
        size > 0,
        PoolState::<T>::fresh(size).run(trace).closed,
        PoolState::<T>::fresh(size).run(trace).all_stopped(),
    ensures
        PoolState::<T>::fresh(size).delivered(trace) == submitted_in_time(trace),
        PoolState::<T>::fresh(size).delivered(trace).len() == submitted_in_time(trace).len(),
        PoolState::<T>::fresh(size).run(trace).queue.len() == 0,
{
    let start = PoolState::<T>::fresh(size);
    lemma_fresh_inv::<T>(size);
    lemma_run_inv(start, trace);
    lemma_drained_when_stopped(start.run(trace));
    lemma_delivered_in_order::<T>(size, trace);
    lemma_accepted_in_time::<T>(size, trace);
}

/// No job is run twice, and none is lost: at any moment a new pool has
/// handed out each job at most as often as it was submitted in time, and
/// exactly as often once the pool is shut down and all workers have
/// stopped.
pub proof fn lemma_each_job_once<T>(size: nat, trace: Seq<Event<T>>, job: T)
    requires
        size > 0,
    ensures
        ({
            let start = PoolState::<T>::fresh(size);
            let given = start.delivered(trace).to_multiset().count(job);
            let taken = submitted_in_time(trace).to_multiset().count(job);
            &&& given <= taken
            &&& start.run(trace).closed && start.run(trace).all_stopped() ==> given == taken
        }),
{
    let start = PoolState::<T>::fresh(size);
    lemma_accepted_in_time::<T>(size, trace);
    lemma_delivered_in_order::<T>(size, trace);
    lemma_multiset_commutative(start.delivered(trace), jobs_of(start.run(trace).queue));
    if start.run(trace).closed && start.run(trace).all_stopped() {
        lemma_all_jobs_run::<T>(size, trace);
    }
}

} // verus!
