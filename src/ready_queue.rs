use vstd::prelude::*;

verus! {

/// A first-in first-out queue of task ids with a fixed bound.
///
/// It keeps both ends of a bounded `async_channel`, so the channel is never
/// closed: a send fails only when the channel is full, a receive only when it
/// is empty.
#[verifier::external_body]
pub struct TaskQueue {
    tx: async_channel::Sender<usize>,
    rx: async_channel::Receiver<usize>,
}

/// The ids waiting in the queue, oldest first.
pub uninterp spec fn queued_ids(q: TaskQueue) -> Seq<usize>;

/// The number of ids that the queue was created to hold.
pub uninterp spec fn queue_bound(q: TaskQueue) -> nat;

impl TaskQueue {
    /// Relies on `async_channel::bounded`: a new, empty channel that holds at
    /// most `cap` messages (it panics when `cap` is zero).
    #[verifier::external_body]
    pub(crate) fn bounded(cap: usize) -> (q: TaskQueue)
        requires
            cap > 0,
        ensures
            queued_ids(q) == Seq::<usize>::empty(),
            queue_bound(q) == cap,
    {
        let (tx, rx) = async_channel::bounded(cap);
        TaskQueue { tx, rx }
    }

    /// Relies on `async_channel::Sender::try_send`: the message goes to the
    /// back of the channel unless it is full, and is refused otherwise.
    #[verifier::external_body]
    pub(crate) fn try_push(&mut self, id: usize) -> (ok: bool)
        ensures
            queue_bound(*final(self)) == queue_bound(*old(self)),
            ok == (queued_ids(*old(self)).len() < queue_bound(*old(self))),
            ok ==> queued_ids(*final(self)) == queued_ids(*old(self)).push(id),
            !ok ==> queued_ids(*final(self)) == queued_ids(*old(self)),
    {
        self.tx.try_send(id).is_ok()
    }

    /// Relies on `async_channel::Receiver::try_recv`: the oldest message, or
    /// an error when the channel is empty.
    #[verifier::external_body]
    pub(crate) fn try_pop(&mut self) -> (r: Option<usize>)
        ensures
            queue_bound(*final(self)) == queue_bound(*old(self)),
            queued_ids(*old(self)).len() == 0 ==> r is None && queued_ids(*final(self))
                == queued_ids(*old(self)),
            queued_ids(*old(self)).len() > 0 ==> r == Some(queued_ids(*old(self))[0])
                && queued_ids(*final(self)) == queued_ids(*old(self)).drop_first(),
    {
        self.rx.try_recv().ok()
    }

    /// Relies on `async_channel::Sender::len`: the number of messages in the
    /// channel.
    #[verifier::external_body]
    pub(crate) fn len(&self) -> (n: usize)
        ensures
            n == queued_ids(*self).len(),
    {
        self.tx.len()
    }
}

} // verus!
