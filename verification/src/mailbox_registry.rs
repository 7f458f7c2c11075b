//! The mailbox registry: one bounded mailbox and one liveness flag per client.

use vstd::prelude::*;
use crate::mailbox::{contents_of, drained_count, push_bounded, Mailbox, MAX_QUEUE_CAPACITY};
use crate::server_to_client::{ServerMessageContent, ServerToClientMessage};

verus! {

/// What the registry holds for one client: the messages waiting for it, the
/// number of messages it has room for, the number of messages that were
/// dropped because it was full, and whether the client is known to have
/// gone.
pub ghost struct MailboxModel {
    pub items: Seq<ServerMessageContent>,
    pub capacity: nat,
    pub dropped: nat,
    pub disconnected: bool,
}

/// The count after one more event. A count that has reached the largest
/// value of its type stays there.
pub open spec fn counted(count: nat) -> nat {
    if count >= u64::MAX {
        u64::MAX as nat
    } else {
        count + 1
    }
}

impl MailboxModel {
    /// The mailbox after an attempt to add `message`: a full mailbox drops
    /// it and counts that.
    pub open spec fn pushed(self, message: ServerMessageContent) -> MailboxModel {
        MailboxModel {
            items: push_bounded(self.items, self.capacity, message),
            dropped: if self.full() {
                counted(self.dropped)
            } else {
                self.dropped
            },
            ..self
        }
    }

    /// Whether the mailbox has no room left.
    pub open spec fn full(self) -> bool {
        self.items.len() >= self.capacity
    }

    /// The mailbox after up to `max_items` messages were taken from its front.
    pub open spec fn drained(self, max_items: nat) -> MailboxModel {
        MailboxModel {
            items: self.items.skip(drained_count(self.items.len(), max_items) as int),
            ..self
        }
    }

    /// The messages that a drain of up to `max_items` takes, oldest first.
    pub open spec fn taken(self, max_items: nat) -> Seq<ServerMessageContent> {
        self.items.take(drained_count(self.items.len(), max_items) as int)
    }

    /// A new mailbox: empty, with nothing dropped, and its client not known
    /// to have gone.
    pub open spec fn fresh(capacity: nat) -> MailboxModel {
        MailboxModel { items: Seq::empty(), capacity, dropped: 0, disconnected: false }
    }

    /// The mailbox after attempts to add each of `messages` in turn.
    pub open spec fn after_pushes(self, messages: Seq<ServerMessageContent>) -> MailboxModel
        decreases messages.len(),
    {
        if messages.len() == 0 {
            self
        } else {
            self.pushed(messages[0]).after_pushes(messages.skip(1))
        }
    }
}

/// The mailboxes after an attempt to put `message` into the mailbox of
/// `client_id`. Nothing changes if the client has no mailbox.
pub open spec fn delivered_to_one(
    boxes: Map<u32, MailboxModel>,
    client_id: u32,
    message: ServerMessageContent,
) -> Map<u32, MailboxModel> {
    if boxes.contains_key(client_id) {
        boxes.insert(client_id, boxes[client_id].pushed(message))
    } else {
        boxes
    }
}

/// The mailboxes after an attempt to put `message` into every mailbox but
/// that of `sender_id`.
pub open spec fn delivered_to_all_except(
    boxes: Map<u32, MailboxModel>,
    sender_id: u32,
    message: ServerMessageContent,
) -> Map<u32, MailboxModel> {
    Map::new(
        |id: u32| boxes.contains_key(id),
        |id: u32|
            if id == sender_id {
                boxes[id]
            } else {
                boxes[id].pushed(message)
            },
    )
}

/// The mailboxes after an attempt to put `message` into every mailbox.
pub open spec fn delivered_to_all(boxes: Map<u32, MailboxModel>, message: ServerMessageContent) -> Map<
    u32,
    MailboxModel,
> {
    Map::new(|id: u32| boxes.contains_key(id), |id: u32| boxes[id].pushed(message))
}

/// Why a mailbox could not be created.
#[derive(Clone, Copy, Debug, PartialEq, Eq, Structural)]
pub enum CreateMailboxError {
    /// The client already has a mailbox.
    AlreadyExists,
    /// The capacity is zero or above `MAX_QUEUE_CAPACITY`.
    InvalidCapacity,
}

/// What became of a message addressed to one client.
#[derive(Clone, Copy, Debug, PartialEq, Eq, Structural)]
pub enum PushOutcome {
    /// The message waits in the client's mailbox.
    Queued,
    /// The mailbox was full and the message was dropped.
    Dropped,
    /// The client has no mailbox and the message was dropped.
    NoMailbox,
}

/// The mailbox of one client with its count of dropped messages and its
/// liveness flag.
struct MailboxSlot {
    client_id: u32,
    mailbox: Mailbox,
    dropped: u64,
    disconnected: bool,
}

impl MailboxSlot {
    /// The client the slot belongs to.
    spec fn owner(&self) -> u32 {
        self.client_id
    }

    /// What the slot holds.
    spec fn model(&self) -> MailboxModel {
        MailboxModel {
            items: self.mailbox.items(),
            capacity: self.mailbox.limit(),
            dropped: self.dropped as nat,
            disconnected: self.disconnected,
        }
    }

    /// The slot's mailbox is well-formed.
    spec fn wf(&self) -> bool {
        self.mailbox.wf()
    }

    /// Puts `message` into the mailbox, or drops it and counts that when the
    /// mailbox is full. Returns whether the message was taken.
    fn put(&mut self, message: ServerToClientMessage) -> (taken: bool)
        requires
            old(self).wf(),
        ensures
            final(self).wf(),
            final(self).owner() == old(self).owner(),
            final(self).model() == old(self).model().pushed(message@),
            taken == !old(self).model().full(),
    {
        let taken = self.mailbox.push(message);
        if !taken {
            self.dropped = self.dropped.saturating_add(1);
        }
        taken
    }
}

/// Whether a slot of the list belongs to the client `id`.
spec fn has_slot(slots: Seq<MailboxSlot>, id: u32) -> bool {
    exists|i: int| 0 <= i < slots.len() && (#[trigger] slots[i]).owner() == id
}

/// The place of the slot of client `id` in the list, where there is one.
spec fn slot_of(slots: Seq<MailboxSlot>, id: u32) -> int {
    choose|i: int| 0 <= i < slots.len() && (#[trigger] slots[i]).owner() == id
}

/// The list as a map from client to mailbox.
spec fn boxes_of(slots: Seq<MailboxSlot>) -> Map<u32, MailboxModel> {
    Map::new(|id: u32| has_slot(slots, id), |id: u32| slots[slot_of(slots, id)].model())
}

/// Every slot is well-formed and no client has two.
spec fn slots_wf(slots: Seq<MailboxSlot>) -> bool {
    &&& forall|i: int| 0 <= i < slots.len() ==> (#[trigger] slots[i]).wf()
    &&& forall|i: int, j: int|
        0 <= i < j < slots.len() ==> (#[trigger] slots[i]).owner() != (#[trigger] slots[j]).owner()
}

/// In a well-formed list, the map holds exactly the list's mailboxes.
proof fn lemma_boxes_of(slots: Seq<MailboxSlot>)
    requires
        slots_wf(slots),
    ensures
        forall|i: int|
            0 <= i < slots.len() ==> boxes_of(slots).contains_key((#[trigger] slots[i]).owner())
                && boxes_of(slots)[slots[i].owner()] == slots[i].model(),
        forall|id: u32| #[trigger]
            boxes_of(slots).contains_key(id) ==> 0 <= slot_of(slots, id) < slots.len()
                && slots[slot_of(slots, id)].owner() == id,
{
    assert forall|i: int| 0 <= i < slots.len() implies boxes_of(slots).contains_key(
        (#[trigger] slots[i]).owner(),
    ) && boxes_of(slots)[slots[i].owner()] == slots[i].model() by {
        let id = slots[i].owner();
        assert(has_slot(slots, id));
        let j = slot_of(slots, id);
        assert(slots[j].owner() == id);
        assert(i == j);
    }
}

/// Two well-formed lists with the same owners in the same places, whose
/// mailboxes are related place by place as `expected` says, give that map.
proof fn lemma_boxes_pointwise(
    before: Seq<MailboxSlot>,
    after: Seq<MailboxSlot>,
    expected: Map<u32, MailboxModel>,
)
    requires
        slots_wf(before),
        slots_wf(after),
        before.len() == after.len(),
        forall|i: int| 0 <= i < before.len() ==> (#[trigger] after[i]).owner() == before[i].owner(),
        forall|id: u32| expected.contains_key(id) <==> boxes_of(before).contains_key(id),
        forall|i: int|
            0 <= i < after.len() ==> expected[(#[trigger] after[i]).owner()] == after[i].model(),
    ensures
        boxes_of(after) == expected,
{
    lemma_boxes_of(before);
    lemma_boxes_of(after);
    assert forall|id: u32| boxes_of(after).contains_key(id) <==> expected.contains_key(id) by {
        if has_slot(after, id) {
            let i = slot_of(after, id);
            assert(before[i].owner() == id);
        }
        if has_slot(before, id) {
            let i = slot_of(before, id);
            assert(after[i].owner() == id);
        }
    }
    assert(boxes_of(after) =~= expected);
}

/// The mailboxes and liveness flags of all clients.
pub struct MailboxRegistry {
    slots: Vec<MailboxSlot>,
}

impl View for MailboxRegistry {
    type V = Map<u32, MailboxModel>;

    closed spec fn view(&self) -> Map<u32, MailboxModel> {
        boxes_of(self.slots@)
    }
}

impl MailboxRegistry {
    /// Every mailbox is well-formed and no client has two.
    pub closed spec fn wf(&self) -> bool {
        slots_wf(self.slots@)
    }

    /// In a well-formed registry no mailbox holds more than its capacity,
    /// which lies between one and `MAX_QUEUE_CAPACITY`.
    pub proof fn lemma_mailbox_bounds(&self, id: u32)
        requires
            self.wf(),
            self@.contains_key(id),
        ensures
            self@[id].items.len() <= self@[id].capacity,
            0 < self@[id].capacity <= MAX_QUEUE_CAPACITY,
    {
        lemma_boxes_of(self.slots@);
        self.slots@[slot_of(self.slots@, id)].mailbox.lemma_bounds();
    }

    /// A registry without mailboxes.
    pub fn new() -> (registry: MailboxRegistry)
        ensures
            registry.wf(),
            registry@ == Map::<u32, MailboxModel>::empty(),
    {
        let registry = MailboxRegistry { slots: Vec::new() };
        proof {
            assert(boxes_of(registry.slots@) =~= Map::<u32, MailboxModel>::empty());
        }
        registry
    }

    /// The place of the slot of client `id`, if it has one.
    fn position_of(&self, id: u32) -> (place: Option<usize>)
        requires
            self.wf(),
        ensures
            place is Some <==> self@.contains_key(id),
            place is Some ==> place->Some_0 < self.slots@.len()
                && self.slots@[place->Some_0 as int].owner() == id
                && self@[id] == self.slots@[place->Some_0 as int].model(),
    {
        let mut i: usize = 0;
        while i < self.slots.len()
            invariant
                self.wf(),
                i <= self.slots@.len(),
                forall|k: int| 0 <= k < i ==> (#[trigger] self.slots@[k]).owner() != id,
            decreases self.slots.len() - i,
        {
            if self.slots[i].client_id == id {
                proof {
                    lemma_boxes_of(self.slots@);
                }
                return Some(i);
            }
            i += 1;
        }
        proof {
            lemma_boxes_of(self.slots@);
        }
        None
    }

    /// Whether the client `id` has a mailbox.
    pub fn contains(&self, id: u32) -> (present: bool)
        requires
            self.wf(),
        ensures
            present == self@.contains_key(id),
    {
        self.position_of(id).is_some()
    }

    /// The number of messages waiting for the client `id`, if it has a
    /// mailbox.
    pub fn pending(&self, id: u32) -> (count: Option<usize>)
        requires
            self.wf(),
        ensures
            count is Some <==> self@.contains_key(id),
            count is Some ==> count->Some_0 == self@[id].items.len(),
    {
        match self.position_of(id) {
            Some(place) => Some(self.slots[place].mailbox.len()),
            None => None,
        }
    }

    /// The number of messages for the client `id` that were dropped because
    /// its mailbox was full, if it has a mailbox.
    pub fn dropped(&self, id: u32) -> (count: Option<u64>)
        requires
            self.wf(),
        ensures
            count is Some <==> self@.contains_key(id),
            count is Some ==> count->Some_0 == self@[id].dropped,
    {
        match self.position_of(id) {
            Some(place) => Some(self.slots[place].dropped),
            None => None,
        }
    }

    /// Whether the client `id` is known to have gone, if it has a mailbox.
    pub fn is_disconnected(&self, id: u32) -> (flag: Option<bool>)
        requires
            self.wf(),
        ensures
            flag is Some <==> self@.contains_key(id),
            flag is Some ==> flag->Some_0 == self@[id].disconnected,
    {
        match self.position_of(id) {
            Some(place) => Some(self.slots[place].disconnected),
            None => None,
        }
    }

    /// Gives the client `client_id` an empty mailbox with room for `capacity`
    /// messages and a liveness flag that is not set. Refused if the client
    /// has a mailbox or the capacity is not allowed.
    pub fn create_mailbox(&mut self, client_id: u32, capacity: usize) -> (result: Result<
        (),
        CreateMailboxError,
    >)
        requires
            old(self).wf(),
        ensures
            final(self).wf(),
            old(self)@.contains_key(client_id) ==> result == Err::<(), CreateMailboxError>(
                CreateMailboxError::AlreadyExists,
            ) && final(self)@ == old(self)@,
            !old(self)@.contains_key(client_id) && !(0 < capacity <= MAX_QUEUE_CAPACITY)
                ==> result == Err::<(), CreateMailboxError>(CreateMailboxError::InvalidCapacity)
                && final(self)@ == old(self)@,
            !old(self)@.contains_key(client_id) && 0 < capacity <= MAX_QUEUE_CAPACITY ==> result
                is Ok && final(self)@ == old(self)@.insert(
                client_id,
                MailboxModel::fresh(capacity as nat),
            ),
    {
        if self.position_of(client_id).is_some() {
            return Err(CreateMailboxError::AlreadyExists);
        }
        match Mailbox::new(capacity) {
            None => Err(CreateMailboxError::InvalidCapacity),
            Some(mailbox) => {
                proof {
                    lemma_boxes_of(self.slots@);
                }
                self.slots.push(MailboxSlot { client_id, mailbox, dropped: 0, disconnected: false });
                proof {
                    let before = old(self).slots@;
                    let after = self.slots@;
                    let expected = old(self)@.insert(client_id, MailboxModel::fresh(capacity as nat));
                    assert forall|i: int| 0 <= i < before.len() implies #[trigger] after[i]
                        == before[i] by {}
                    assert forall|i: int, j: int| 0 <= i < j < after.len() implies (
                    #[trigger] after[i]).owner() != (#[trigger] after[j]).owner() by {
                        if j == before.len() {
                            assert(after[i] == before[i]);
                            assert(old(self)@.contains_key(before[i].owner()));
                        }
                    }
                    lemma_boxes_of(after);
                    assert forall|k: u32| boxes_of(after).contains_key(k) <==> expected.contains_key(
                        k,
                    ) by {
                        if has_slot(after, k) {
                            let i = slot_of(after, k);
                            if i < before.len() {
                                assert(before[i].owner() == k);
                            }
                        }
                        if has_slot(before, k) {
                            let i = slot_of(before, k);
                            assert(after[i].owner() == k);
                        }
                        if k == client_id {
                            assert(after[before.len() as int].owner() == k);
                        }
                    }
                    assert forall|k: u32| boxes_of(after).contains_key(k) implies boxes_of(after)[k]
                        == expected[k] by {
                        let i = slot_of(after, k);
                        if i < before.len() {
                            assert(before[i].owner() == k);
                        }
                    }
                    assert(boxes_of(after) =~= expected);
                }
                Ok(())
            },
        }
    }

    /// Puts `message` into the mailbox of `client_id`. A full mailbox drops
    /// the message; so does a client without a mailbox.
    pub fn push(&mut self, client_id: u32, message: ServerToClientMessage) -> (outcome: PushOutcome)
        requires
            old(self).wf(),
        ensures
            final(self).wf(),
            final(self)@ == delivered_to_one(old(self)@, client_id, message@),
            outcome == if !old(self)@.contains_key(client_id) {
                PushOutcome::NoMailbox
            } else if old(self)@[client_id].full() {
                PushOutcome::Dropped
            } else {
                PushOutcome::Queued
            },
    {
        match self.position_of(client_id) {
            None => PushOutcome::NoMailbox,
            Some(place) => {
                let taken = self.slots[place].put(message);
                proof {
                    let before = old(self).slots@;
                    let after = self.slots@;
                    let expected = delivered_to_one(old(self)@, client_id, message@);
                    lemma_boxes_of(before);
                    assert forall|i: int| 0 <= i < after.len() implies expected[(
                    #[trigger] after[i]).owner()] == after[i].model() by {
                        if i != place {
                            assert(after[i] == before[i]);
                        }
                    }
                    lemma_boxes_pointwise(before, after, expected);
                }
                if taken {
                    PushOutcome::Queued
                } else {
                    PushOutcome::Dropped
                }
            },
        }
    }

    /// Takes up to `max_items` messages out of the mailbox of `client_id`,
    /// oldest first, without waiting for more. A client without a mailbox
    /// gives no messages.
    pub fn drain(&mut self, client_id: u32, max_items: usize) -> (drained: Vec<
        ServerToClientMessage,
    >)
        requires
            old(self).wf(),
        ensures
            final(self).wf(),
            !old(self)@.contains_key(client_id) ==> drained@.len() == 0 && final(self)@ == old(
                self,
            )@,
            old(self)@.contains_key(client_id) ==> contents_of(drained@) == old(
                self,
            )@[client_id].taken(max_items as nat) && final(self)@ == old(self)@.insert(
                client_id,
                old(self)@[client_id].drained(max_items as nat),
            ),
    {
        match self.position_of(client_id) {
            None => Vec::new(),
            Some(place) => {
                let drained = self.slots[place].mailbox.drain(max_items);
                proof {
                    let before = old(self).slots@;
                    let after = self.slots@;
                    let expected = old(self)@.insert(
                        client_id,
                        old(self)@[client_id].drained(max_items as nat),
                    );
                    lemma_boxes_of(before);
                    assert(contents_of(drained@).len() == drained@.len());
                    assert forall|i: int| 0 <= i < after.len() implies expected[(
                    #[trigger] after[i]).owner()] == after[i].model() by {
                        if i != place {
                            assert(after[i] == before[i]);
                        }
                    }
                    lemma_boxes_pointwise(before, after, expected);
                }
                drained
            },
        }
    }

    /// Sets the liveness flag of the client `client_id`: the client is known
    /// to have gone. Returns whether the client has a mailbox.
    pub fn mark_disconnected(&mut self, client_id: u32) -> (present: bool)
        requires
            old(self).wf(),
        ensures
            final(self).wf(),
            present == old(self)@.contains_key(client_id),
            present ==> final(self)@ == old(self)@.insert(
                client_id,
                MailboxModel { disconnected: true, ..old(self)@[client_id] },
            ),
            !present ==> final(self)@ == old(self)@,
    {
        match self.position_of(client_id) {
            None => false,
            Some(place) => {
                self.slots[place].disconnected = true;
                proof {
                    let before = old(self).slots@;
                    let after = self.slots@;
                    let expected = old(self)@.insert(
                        client_id,
                        MailboxModel { disconnected: true, ..old(self)@[client_id] },
                    );
                    lemma_boxes_of(before);
                    assert forall|i: int| 0 <= i < after.len() implies expected[(
                    #[trigger] after[i]).owner()] == after[i].model() by {
                        if i != place {
                            assert(after[i] == before[i]);
                        }
                    }
                    lemma_boxes_pointwise(before, after, expected);
                }
                true
            },
        }
    }

    /// Removes the mailbox and the liveness flag of the client `client_id`,
    /// with every message still waiting in it. Returns whether the client had
    /// a mailbox.
    pub fn remove(&mut self, client_id: u32) -> (present: bool)
        requires
            old(self).wf(),
        ensures
            final(self).wf(),
            present == old(self)@.contains_key(client_id),
            final(self)@ == old(self)@.remove(client_id),
    {
        match self.position_of(client_id) {
            None => {
                proof {
                    assert(old(self)@.remove(client_id) =~= old(self)@);
                }
                false
            },
            Some(place) => {
                proof {
                    lemma_boxes_of(self.slots@);
                }
                let _ = self.slots.remove(place);
                proof {
                    let before = old(self).slots@;
                    let after = self.slots@;
                    let p = place as int;
                    let expected = old(self)@.remove(client_id);
                    assert(after == before.remove(p));
                    assert forall|i: int| 0 <= i < after.len() implies #[trigger] after[i]
                        == before[if i < p {
                        i
                    } else {
                        i + 1
                    }] by {}
                    assert forall|i: int, j: int| 0 <= i < j < after.len() implies (
                    #[trigger] after[i]).owner() != (#[trigger] after[j]).owner() by {
                        let source = if i < p { i } else { i + 1 };
                        let other_source = if j < p { j } else { j + 1 };
                        assert(after[i] == before[source]);
                        assert(after[j] == before[other_source]);
                    }
                    lemma_boxes_of(after);
                    assert forall|k: u32| boxes_of(after).contains_key(k) <==> expected.contains_key(
                        k,
                    ) by {
                        if has_slot(after, k) {
                            let i = slot_of(after, k);
                            let source = if i < p { i } else { i + 1 };
                            assert(before[source].owner() == k);
                        }
                        if has_slot(before, k) && k != client_id {
                            let i = slot_of(before, k);
                            let shifted = if i < p { i } else { i - 1 };
                            assert(after[shifted].owner() == k);
                        }
                    }
                    assert forall|k: u32| boxes_of(after).contains_key(k) implies boxes_of(after)[k]
                        == expected[k] by {
                        let i = slot_of(after, k);
                        let source = if i < p { i } else { i + 1 };
                        assert(before[source].owner() == k);
                    }
                    assert(boxes_of(after) =~= expected);
                }
                true
            },
        }
    }

    /// The clients that have a mailbox, each once.
    pub fn client_ids(&self) -> (ids: Vec<u32>)
        requires
            self.wf(),
        ensures
            ids@.no_duplicates(),
            forall|id: u32| ids@.contains(id) <==> self@.contains_key(id),
    {
        let mut ids: Vec<u32> = Vec::new();
        let mut i: usize = 0;
        while i < self.slots.len()
            invariant
                self.wf(),
                i <= self.slots@.len(),
                ids@.len() == i,
                forall|k: int| 0 <= k < i ==> #[trigger] ids@[k] == self.slots@[k].owner(),
            decreases self.slots.len() - i,
        {
            ids.push(self.slots[i].client_id);
            i += 1;
        }
        proof {
            lemma_boxes_of(self.slots@);
            assert forall|a: int, b: int| 0 <= a < ids@.len() && 0 <= b < ids@.len() && a
                != b implies ids@[a] != ids@[b] by {
                if a < b {
                    assert(self.slots@[a].owner() != self.slots@[b].owner());
                } else {
                    assert(self.slots@[b].owner() != self.slots@[a].owner());
                }
            }
            assert forall|id: u32| ids@.contains(id) <==> self@.contains_key(id) by {
                if ids@.contains(id) {
                    let k = choose|k: int| 0 <= k < ids@.len() && ids@[k] == id;
                    assert(self.slots@[k].owner() == id);
                }
                if self@.contains_key(id) {
                    let k = slot_of(self.slots@, id);
                    assert(ids@[k] == id);
                }
            }
        }
        ids
    }
}

/// Puts `message` into the mailbox of `client_id`. A full mailbox drops the
/// message; so does a client without a mailbox.
pub fn send_to_one_client(
    registry: &mut MailboxRegistry,
    client_id: u32,
    message: ServerToClientMessage,
) -> (outcome: PushOutcome)
    requires
        old(registry).wf(),
    ensures
        final(registry).wf(),
        final(registry)@ == delivered_to_one(old(registry)@, client_id, message@),
        outcome == if !old(registry)@.contains_key(client_id) {
            PushOutcome::NoMailbox
        } else if old(registry)@[client_id].full() {
            PushOutcome::Dropped
        } else {
            PushOutcome::Queued
        },
{
    registry.push(client_id, message)
}

/// Puts a copy of `message` into the mailbox of every client but
/// `sender_id`. Each full mailbox drops its copy; the others are not
/// affected by that.
pub fn broadcast_to_all_except(
    registry: &mut MailboxRegistry,
    sender_id: u32,
    message: ServerToClientMessage,
)
    requires
        old(registry).wf(),
    ensures
        final(registry).wf(),
        final(registry)@ == delivered_to_all_except(old(registry)@, sender_id, message@),
{
    let mut i: usize = 0;
    while i < registry.slots.len()
        invariant
            registry.wf(),
            i <= registry.slots@.len(),
            registry.slots@.len() == old(registry).slots@.len(),
            forall|k: int|
                0 <= k < registry.slots@.len() ==> (#[trigger] registry.slots@[k]).owner() == old(
                    registry,
                ).slots@[k].owner(),
            forall|k: int|
                i <= k < registry.slots@.len() ==> (#[trigger] registry.slots@[k]).model() == old(
                    registry,
                ).slots@[k].model(),
            forall|k: int|
                0 <= k < i ==> (#[trigger] registry.slots@[k]).model() == if old(
                    registry,
                ).slots@[k].owner() == sender_id {
                    old(registry).slots@[k].model()
                } else {
                    old(registry).slots@[k].model().pushed(message@)
                },
        decreases registry.slots.len() - i,
    {
        let ghost before = registry.slots@;
        if registry.slots[i].client_id != sender_id {
            let copy = message.clone();
            let _ = registry.slots[i].put(copy);
        }
        proof {
            let after = registry.slots@;
            assert forall|k: int| 0 <= k < after.len() && k != i implies #[trigger] after[k]
                == before[k] by {}
        }
        i += 1;
    }
    proof {
        let expected = delivered_to_all_except(old(registry)@, sender_id, message@);
        lemma_boxes_of(old(registry).slots@);
        lemma_boxes_pointwise(old(registry).slots@, registry.slots@, expected);
    }
}

/// Puts a copy of `message` into the mailbox of every client. Each full
/// mailbox drops its copy; the others are not affected by that.
pub fn broadcast_to_all(registry: &mut MailboxRegistry, message: ServerToClientMessage)
    requires
        old(registry).wf(),
    ensures
        final(registry).wf(),
        final(registry)@ == delivered_to_all(old(registry)@, message@),
{
    let mut i: usize = 0;
    while i < registry.slots.len()
        invariant
            registry.wf(),
            i <= registry.slots@.len(),
            registry.slots@.len() == old(registry).slots@.len(),
            forall|k: int|
                0 <= k < registry.slots@.len() ==> (#[trigger] registry.slots@[k]).owner() == old(
                    registry,
                ).slots@[k].owner(),
            forall|k: int|
                i <= k < registry.slots@.len() ==> (#[trigger] registry.slots@[k]).model() == old(
                    registry,
                ).slots@[k].model(),
            forall|k: int|
                0 <= k < i ==> (#[trigger] registry.slots@[k]).model() == old(
                    registry,
                ).slots@[k].model().pushed(message@),
        decreases registry.slots.len() - i,
    {
        let ghost before = registry.slots@;
        let copy = message.clone();
        let _ = registry.slots[i].put(copy);
        proof {
            let after = registry.slots@;
            assert forall|k: int| 0 <= k < after.len() && k != i implies #[trigger] after[k]
                == before[k] by {}
        }
        i += 1;
    }
    proof {
        let expected = delivered_to_all(old(registry)@, message@);
        lemma_boxes_of(old(registry).slots@);
        lemma_boxes_pointwise(old(registry).slots@, registry.slots@, expected);
    }
}

/// A mailbox within its capacity holds, after attempts to add `messages`,
/// its old messages followed by as many of the new ones as there was room
/// for, in the order in which they came.
pub proof fn lemma_pushes_keep_oldest(mailbox: MailboxModel, messages: Seq<ServerMessageContent>)
    requires
        mailbox.items.len() <= mailbox.capacity,
    ensures
        mailbox.after_pushes(messages).items == (mailbox.items + messages).take(
            drained_count(mailbox.items.len() + messages.len(), mailbox.capacity) as int,
        ),
        mailbox.after_pushes(messages).capacity == mailbox.capacity,
    decreases messages.len(),
{
    let total = mailbox.items + messages;
    if messages.len() == 0 {
        assert(total =~= mailbox.items);
        assert(mailbox.items.take(mailbox.items.len() as int) =~= mailbox.items);
    } else {
        let next = mailbox.pushed(messages[0]);
        lemma_pushes_keep_oldest(next, messages.skip(1));
        if mailbox.items.len() < mailbox.capacity {
            assert(next.items + messages.skip(1) =~= total);
        } else {
            assert((next.items + messages.skip(1)).take(mailbox.capacity as int) =~= total.take(
                mailbox.capacity as int,
            ));
        }
    }
}

/// A mailbox with room for `capacity` messages to which more than that are
/// added keeps exactly the first `capacity` of them and drops the newer
/// ones; a drain that asks for at least `capacity` messages returns those
/// that were kept, in the order in which they were added, and leaves the
/// mailbox empty.
pub proof fn lemma_overflow_drops_newest(
    capacity: nat,
    messages: Seq<ServerMessageContent>,
    max_items: nat,
)
    requires
        messages.len() > capacity,
        max_items >= capacity,
    ensures
        MailboxModel::fresh(capacity).after_pushes(messages).items.len() == capacity,
        MailboxModel::fresh(capacity).after_pushes(messages).taken(max_items) == messages.take(
            capacity as int,
        ),
        MailboxModel::fresh(capacity).after_pushes(messages).drained(max_items).items.len() == 0,
{
    let empty = MailboxModel::fresh(capacity);
    lemma_pushes_keep_oldest(empty, messages);
    assert(empty.items + messages =~= messages);
    let full = empty.after_pushes(messages);
    assert(full.items.take(capacity as int) =~= full.items);
}

} // verus!
