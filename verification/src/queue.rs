//! The queue between those who submit jobs and the workers.

use crate::message::Message;
use std::collections::VecDeque;
use vstd::prelude::*;

verus! {

/// A queue of messages without a bound. Messages leave it in the order in
/// which they entered, each of them once. A closed queue takes no more
/// messages; those that it holds can still be taken out.
pub struct JobQueue<T> {
    messages: VecDeque<Message<T>>,
    closed: bool,
}

/// Why a message was not taken: the queue is closed. The message comes back
/// with it.
pub struct Closed<T>(pub Message<T>);

impl<T> View for JobQueue<T> {
    type V = Seq<Message<T>>;

    /// The messages in the queue, the next to leave first.
    closed spec fn view(&self) -> Seq<Message<T>> {
        self.messages@
    }
}

impl<T> JobQueue<T> {
    /// True once the queue has been closed.
    pub closed spec fn spec_closed(&self) -> bool {
        self.closed
    }

    /// An open queue that holds nothing.
    pub fn new() -> (queue: Self)
        ensures
            queue@ == Seq::<Message<T>>::empty(),
            !queue.spec_closed(),
    {
        JobQueue { messages: VecDeque::new(), closed: false }
    }

    /// Whether the queue has been closed.
    #[verifier::when_used_as_spec(spec_closed)]
    pub fn is_closed(&self) -> (closed: bool)
        ensures
            closed == self.spec_closed(),
    {
        self.closed
    }

    /// How many messages wait in the queue.
    pub fn len(&self) -> (n: usize)
        ensures
            n == self@.len(),
    {
        self.messages.len()
    }

    /// Whether no message waits in the queue.
    pub fn is_empty(&self) -> (empty: bool)
        ensures
            empty == (self@.len() == 0),
    {
        self.messages.len() == 0
    }

    /// Puts `message` behind all that the queue holds. A closed queue
    /// refuses it, stays as it is and hands the message back.
    pub fn enqueue(&mut self, message: Message<T>) -> (taken: Result<(), Closed<T>>)
        ensures
            final(self).spec_closed() == old(self).spec_closed(),
            old(self).spec_closed() ==> {
                &&& taken == Err::<(), Closed<T>>(Closed(message))
                &&& final(self)@ == old(self)@
            },
            !old(self).spec_closed() ==> {
                &&& taken is Ok
                &&& final(self)@ == old(self)@.push(message)
            },
    {
        if self.closed {
            Err(Closed(message))
        } else {
            self.messages.push_back(message);
            Ok(())
        }
    }

    /// Takes out the message that has waited longest. `None` means that the
    /// queue holds nothing at the moment.
    pub fn dequeue(&mut self) -> (message: Option<Message<T>>)
        ensures
            final(self).spec_closed() == old(self).spec_closed(),
            old(self)@.len() == 0 ==> {
                &&& message is None
                &&& final(self)@ == old(self)@
            },
            old(self)@.len() > 0 ==> {
                &&& message == Some(old(self)@[0])
                &&& final(self)@ == old(self)@.drop_first()
            },
    {
        self.messages.pop_front()
    }

    /// Closes the queue. What it holds stays in it.
    pub fn close(&mut self)
        ensures
            final(self).spec_closed(),
            final(self)@ == old(self)@,
    {
        self.closed = true;
    }
}

} // verus!
