//! A client's mailbox: the bounded queue of messages waiting to be sent to it.

use vstd::prelude::*;
use crossbeam::queue::ArrayQueue;
use crate::server_to_client::{ServerMessageContent, ServerToClientMessage};

verus! {

/// The largest capacity a mailbox or the ingestion queue may be given.
pub const MAX_QUEUE_CAPACITY: usize = 65_536;

/// What the messages in a queue say, oldest first.
pub uninterp spec fn queued_messages(queue: ArrayQueue<ServerToClientMessage>) -> Seq<
    ServerMessageContent,
>;

/// The capacity a message queue was made with.
pub uninterp spec fn message_limit(queue: ArrayQueue<ServerToClientMessage>) -> nat;

/// `ArrayQueue::new`, which panics on a capacity of zero and on one so large
/// that the power of two above it does not fit the queue's index type:
/// claimed to give an empty queue of the capacity asked for.
#[verifier::external_body]
fn new_message_queue(capacity: usize) -> (queue: ArrayQueue<ServerToClientMessage>)
    requires
        0 < capacity <= usize::MAX / 2,
    ensures
        queued_messages(queue) == Seq::<ServerMessageContent>::empty(),
        message_limit(queue) == capacity,
{
    ArrayQueue::new(capacity)
}

/// `ArrayQueue::push_mut`: claimed to append the message when the queue holds
/// fewer messages than its capacity, and otherwise to hand the message back
/// and leave the queue as it was. The message handed back is returned.
#[verifier::external_body]
fn push_message(
    queue: &mut ArrayQueue<ServerToClientMessage>,
    message: ServerToClientMessage,
) -> (rejected: Option<ServerToClientMessage>)
    ensures
        message_limit(*final(queue)) == message_limit(*old(queue)),
        queued_messages(*old(queue)).len() < message_limit(*old(queue)) ==> rejected is None
            && queued_messages(*final(queue)) == queued_messages(*old(queue)).push(message@),
        queued_messages(*old(queue)).len() >= message_limit(*old(queue)) ==> rejected == Some(
            message,
        ) && queued_messages(*final(queue)) == queued_messages(*old(queue)),
{
    queue.push_mut(message).err()
}

/// `ArrayQueue::pop_mut`: claimed to take out and return the oldest message,
/// or to return `None` and change nothing when the queue is empty.
#[verifier::external_body]
fn pop_message(queue: &mut ArrayQueue<ServerToClientMessage>) -> (result: Option<
    ServerToClientMessage,
>)
    ensures
        message_limit(*final(queue)) == message_limit(*old(queue)),
        queued_messages(*old(queue)).len() == 0 ==> result is None && queued_messages(
            *final(queue),
        ) == queued_messages(*old(queue)),
        queued_messages(*old(queue)).len() > 0 ==> result is Some && result->Some_0@
            == queued_messages(*old(queue))[0] && queued_messages(*final(queue))
            == queued_messages(*old(queue)).skip(1),
{
    queue.pop_mut()
}

/// `ArrayQueue::len`: claimed to return the number of messages in the queue.
#[verifier::external_body]
fn count_messages(queue: &ArrayQueue<ServerToClientMessage>) -> (count: usize)
    ensures
        count == queued_messages(*queue).len(),
{
    queue.len()
}

/// `ArrayQueue::capacity`: claimed to return the capacity the queue was made
/// with.
#[verifier::external_body]
fn message_capacity(queue: &ArrayQueue<ServerToClientMessage>) -> (capacity: usize)
    ensures
        capacity == message_limit(*queue),
{
    queue.capacity()
}

/// What each message of a list says, in the same order.
pub open spec fn contents_of(messages: Seq<ServerToClientMessage>) -> Seq<ServerMessageContent> {
    messages.map_values(|m: ServerToClientMessage| m@)
}

/// What a bounded queue holds after an attempt to add `message`: the message
/// goes to the back if there is room, and is dropped otherwise.
pub open spec fn push_bounded(
    items: Seq<ServerMessageContent>,
    capacity: nat,
    message: ServerMessageContent,
) -> Seq<ServerMessageContent> {
    if items.len() < capacity {
        items.push(message)
    } else {
        items
    }
}

/// The number of messages a drain of at most `max_items` takes from a queue
/// of `available` messages.
pub open spec fn drained_count(available: nat, max_items: nat) -> nat {
    if available <= max_items {
        available
    } else {
        max_items
    }
}

/// The bounded queue of messages waiting to be sent to one client.
pub struct Mailbox {
    queue: ArrayQueue<ServerToClientMessage>,
}

impl Mailbox {
    /// What the waiting messages say, oldest first.
    pub closed spec fn items(&self) -> Seq<ServerMessageContent> {
        queued_messages(self.queue)
    }

    /// The number of messages the mailbox has room for.
    pub closed spec fn limit(&self) -> nat {
        message_limit(self.queue)
    }

    /// A mailbox never holds more than its capacity, which is at least one
    /// and at most `MAX_QUEUE_CAPACITY`.
    pub closed spec fn wf(&self) -> bool {
        &&& 0 < self.limit() <= MAX_QUEUE_CAPACITY
        &&& self.items().len() <= self.limit()
    }

    /// The bounds that hold of every well-formed mailbox.
    pub proof fn lemma_bounds(&self)
        requires
            self.wf(),
        ensures
            0 < self.limit() <= MAX_QUEUE_CAPACITY,
            self.items().len() <= self.limit(),
    {
    }

    /// An empty mailbox with room for `capacity` messages, or `None` when
    /// `capacity` is zero or above `MAX_QUEUE_CAPACITY`.
    pub fn new(capacity: usize) -> (mailbox: Option<Mailbox>)
        ensures
            mailbox is Some <==> 0 < capacity <= MAX_QUEUE_CAPACITY,
            mailbox is Some ==> mailbox->Some_0.wf() && mailbox->Some_0.limit() == capacity
                && mailbox->Some_0.items() == Seq::<ServerMessageContent>::empty(),
    {
        if capacity == 0 || capacity > MAX_QUEUE_CAPACITY {
            None
        } else {
            Some(Mailbox { queue: new_message_queue(capacity) })
        }
    }

    /// Puts `message` at the back of the mailbox, or drops it when the
    /// mailbox is full. Returns whether the message was taken.
    pub fn push(&mut self, message: ServerToClientMessage) -> (taken: bool)
        requires
            old(self).wf(),
        ensures
            final(self).wf(),
            final(self).limit() == old(self).limit(),
            taken == (old(self).items().len() < old(self).limit()),
            final(self).items() == push_bounded(old(self).items(), old(self).limit(), message@),
    {
        push_message(&mut self.queue, message).is_none()
    }

    /// Takes the oldest message out of the mailbox, if there is one.
    pub fn pop(&mut self) -> (message: Option<ServerToClientMessage>)
        requires
            old(self).wf(),
        ensures
            final(self).wf(),
            final(self).limit() == old(self).limit(),
            message is Some <==> old(self).items().len() > 0,
            message is Some ==> message->Some_0@ == old(self).items()[0] && final(self).items()
                == old(self).items().skip(1),
            message is None ==> final(self).items() == old(self).items(),
    {
        pop_message(&mut self.queue)
    }

    /// Takes up to `max_items` messages out of the mailbox, oldest first, and
    /// leaves the rest waiting in their order.
    pub fn drain(&mut self, max_items: usize) -> (drained: Vec<ServerToClientMessage>)
        requires
            old(self).wf(),
        ensures
            final(self).wf(),
            final(self).limit() == old(self).limit(),
            drained@.len() == drained_count(old(self).items().len(), max_items as nat),
            contents_of(drained@) == old(self).items().take(drained@.len() as int),
            final(self).items() == old(self).items().skip(drained@.len() as int),
    {
        let mut drained: Vec<ServerToClientMessage> = Vec::new();
        let available = count_messages(&self.queue);
        let wanted = if available <= max_items {
            available
        } else {
            max_items
        };
        while drained.len() < wanted
            invariant
                self.wf(),
                self.limit() == old(self).limit(),
                wanted <= old(self).items().len(),
                drained@.len() <= wanted,
                contents_of(drained@) == old(self).items().take(drained@.len() as int),
                self.items() == old(self).items().skip(drained@.len() as int),
            decreases wanted - drained.len(),
        {
            let ghost before = drained@;
            let popped = pop_message(&mut self.queue);
            proof {
                let n = before.len() as int;
                assert(old(self).items().skip(n).len() > 0);
                assert(old(self).items().skip(n)[0] == old(self).items()[n]);
                assert(old(self).items().skip(n).skip(1) =~= old(self).items().skip(n + 1));
            }
            if let Some(message) = popped {
                drained.push(message);
                proof {
                    let n = before.len() as int;
                    assert(drained@ == before.push(message));
                    assert(contents_of(drained@) =~= old(self).items().take(n + 1));
                }
            }
        }
        drained
    }

    /// The number of messages waiting.
    pub fn len(&self) -> (count: usize)
        ensures
            count == self.items().len(),
    {
        count_messages(&self.queue)
    }

    /// The number of messages the mailbox has room for.
    pub fn capacity(&self) -> (capacity: usize)
        ensures
            capacity == self.limit(),
    {
        message_capacity(&self.queue)
    }
}

} // verus!
