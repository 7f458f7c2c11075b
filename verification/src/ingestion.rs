//! The ingestion queue: the one bounded queue through which every client
//! request reaches the game.

use vstd::prelude::*;
use crossbeam::queue::ArrayQueue;
use crate::client_to_server::{AttributedRequest, ClientToServerMessageBundle};
use crate::mailbox::MAX_QUEUE_CAPACITY;

verus! {

/// What the requests in a queue say, oldest first.
pub uninterp spec fn queued_requests(queue: ArrayQueue<ClientToServerMessageBundle>) -> Seq<
    AttributedRequest,
>;

/// The capacity a request queue was made with.
pub uninterp spec fn request_limit(queue: ArrayQueue<ClientToServerMessageBundle>) -> nat;

/// `ArrayQueue::new`, which panics on a capacity of zero and on one so large
/// that the power of two above it does not fit the queue's index type:
/// claimed to give an empty queue of the capacity asked for.
#[verifier::external_body]
fn new_request_queue(capacity: usize) -> (queue: ArrayQueue<ClientToServerMessageBundle>)
    requires
        0 < capacity <= usize::MAX / 2,
    ensures
        queued_requests(queue) == Seq::<AttributedRequest>::empty(),
        request_limit(queue) == capacity,
{
    ArrayQueue::new(capacity)
}

/// `ArrayQueue::push_mut`: claimed to append the request when the queue holds
/// fewer requests than its capacity, and otherwise to hand the request back
/// and leave the queue as it was. The request handed back is returned.
#[verifier::external_body]
fn push_request(
    queue: &mut ArrayQueue<ClientToServerMessageBundle>,
    bundle: ClientToServerMessageBundle,
) -> (rejected: Option<ClientToServerMessageBundle>)
    ensures
        request_limit(*final(queue)) == request_limit(*old(queue)),
        queued_requests(*old(queue)).len() < request_limit(*old(queue)) ==> rejected is None
            && queued_requests(*final(queue)) == queued_requests(*old(queue)).push(bundle@),
        queued_requests(*old(queue)).len() >= request_limit(*old(queue)) ==> rejected == Some(
            bundle,
        ) && queued_requests(*final(queue)) == queued_requests(*old(queue)),
{
    queue.push_mut(bundle).err()
}

/// `ArrayQueue::pop_mut`: claimed to take out and return the oldest request,
/// or to return `None` and change nothing when the queue is empty.
#[verifier::external_body]
fn pop_request(queue: &mut ArrayQueue<ClientToServerMessageBundle>) -> (result: Option<
    ClientToServerMessageBundle,
>)
    ensures
        request_limit(*final(queue)) == request_limit(*old(queue)),
        queued_requests(*old(queue)).len() == 0 ==> result is None && queued_requests(
            *final(queue),
        ) == queued_requests(*old(queue)),
        queued_requests(*old(queue)).len() > 0 ==> result is Some && result->Some_0@
            == queued_requests(*old(queue))[0] && queued_requests(*final(queue))
            == queued_requests(*old(queue)).skip(1),
{
    queue.pop_mut()
}

/// `ArrayQueue::len`: claimed to return the number of requests in the queue.
#[verifier::external_body]
fn count_requests(queue: &ArrayQueue<ClientToServerMessageBundle>) -> (count: usize)
    ensures
        count == queued_requests(*queue).len(),
{
    queue.len()
}

/// `ArrayQueue::capacity`: claimed to return the capacity the queue was made
/// with.
#[verifier::external_body]
fn request_capacity(queue: &ArrayQueue<ClientToServerMessageBundle>) -> (capacity: usize)
    ensures
        capacity == request_limit(*queue),
{
    queue.capacity()
}

/// What a bounded queue holds after an attempt to add `request`: the request
/// goes to the back if there is room, and is dropped otherwise.
pub open spec fn admitted(
    items: Seq<AttributedRequest>,
    capacity: nat,
    request: AttributedRequest,
) -> Seq<AttributedRequest> {
    if items.len() < capacity {
        items.push(request)
    } else {
        items
    }
}

/// The bounded queue of requests waiting for the game to process them.
pub struct IngestionQueue {
    queue: ArrayQueue<ClientToServerMessageBundle>,
}

impl IngestionQueue {
    /// What the waiting requests say, oldest first.
    pub closed spec fn items(&self) -> Seq<AttributedRequest> {
        queued_requests(self.queue)
    }

    /// The number of requests the queue has room for.
    pub closed spec fn limit(&self) -> nat {
        request_limit(self.queue)
    }

    /// The queue never holds more than its capacity, which is at least one
    /// and at most `MAX_QUEUE_CAPACITY`.
    pub closed spec fn wf(&self) -> bool {
        &&& 0 < self.limit() <= MAX_QUEUE_CAPACITY
        &&& self.items().len() <= self.limit()
    }

    /// The bounds that hold of every well-formed queue.
    pub proof fn lemma_bounds(&self)
        requires
            self.wf(),
        ensures
            0 < self.limit() <= MAX_QUEUE_CAPACITY,
            self.items().len() <= self.limit(),
    {
    }

    /// An empty queue with room for `capacity` requests, or `None` when
    /// `capacity` is zero or above `MAX_QUEUE_CAPACITY`.
    pub fn new(capacity: usize) -> (queue: Option<IngestionQueue>)
        ensures
            queue is Some <==> 0 < capacity <= MAX_QUEUE_CAPACITY,
            queue is Some ==> queue->Some_0.wf() && queue->Some_0.limit() == capacity
                && queue->Some_0.items() == Seq::<AttributedRequest>::empty(),
    {
        if capacity == 0 || capacity > MAX_QUEUE_CAPACITY {
            None
        } else {
            Some(IngestionQueue { queue: new_request_queue(capacity) })
        }
    }

    /// Puts `bundle` at the back of the queue, or drops it when the queue is
    /// full. Returns whether the request was taken.
    pub fn push(&mut self, bundle: ClientToServerMessageBundle) -> (taken: bool)
        requires
            old(self).wf(),
        ensures
            final(self).wf(),
            final(self).limit() == old(self).limit(),
            taken == (old(self).items().len() < old(self).limit()),
            final(self).items() == admitted(old(self).items(), old(self).limit(), bundle@),
    {
        push_request(&mut self.queue, bundle).is_none()
    }

    /// Takes the oldest request out of the queue, if there is one.
    pub fn pop(&mut self) -> (bundle: Option<ClientToServerMessageBundle>)
        requires
            old(self).wf(),
        ensures
            final(self).wf(),
            final(self).limit() == old(self).limit(),
            bundle is Some <==> old(self).items().len() > 0,
            bundle is Some ==> bundle->Some_0@ == old(self).items()[0] && final(self).items()
                == old(self).items().skip(1),
            bundle is None ==> final(self).items() == old(self).items(),
    {
        pop_request(&mut self.queue)
    }

    /// The number of requests waiting.
    pub fn len(&self) -> (count: usize)
        ensures
            count == self.items().len(),
    {
        count_requests(&self.queue)
    }

    /// The number of requests the queue has room for.
    pub fn capacity(&self) -> (capacity: usize)
        ensures
            capacity == self.limit(),
    {
        request_capacity(&self.queue)
    }
}

} // verus!
