//! One pass of the outbound dispatcher: what is to be sent to whom.

use vstd::prelude::*;
use crate::endpoint::Endpoint;
use crate::mailbox::contents_of;
use crate::mailbox_registry::{MailboxModel, MailboxRegistry};
use crate::server_to_client::ServerToClientMessage;
use crate::session_directory::{DirectoryModel, SessionDirectory};

verus! {

/// The messages to send to one client in this pass, oldest first, and the
/// endpoint to send them to.
pub struct OutboundBatch {
    pub client_id: u32,
    pub endpoint: Endpoint,
    pub messages: Vec<ServerToClientMessage>,
}

/// What one pass over the mailboxes gave: the batches to send, and the
/// clients that were skipped because they have a mailbox but no session.
pub struct OutboundPass {
    pub batches: Vec<OutboundBatch>,
    pub orphaned: Vec<u32>,
}

/// The mailboxes after one pass that takes up to `max_items` messages from
/// the mailbox of every client with a session. A mailbox whose client has no
/// session stays as it is.
pub open spec fn after_pass(
    boxes: Map<u32, MailboxModel>,
    directory: DirectoryModel,
    max_items: nat,
) -> Map<u32, MailboxModel> {
    Map::new(
        |id: u32| boxes.contains_key(id),
        |id: u32|
            if directory.sessions.contains_key(id) {
                boxes[id].drained(max_items)
            } else {
                boxes[id]
            },
    )
}

/// Whether `batch` is what a pass owes the client it names: the client has a
/// mailbox and a session, the batch goes to the endpoint of that session,
/// and it holds the oldest messages of the mailbox, up to `max_items`, in
/// their order.
pub open spec fn batch_is_due(
    batch: OutboundBatch,
    boxes: Map<u32, MailboxModel>,
    directory: DirectoryModel,
    max_items: nat,
) -> bool {
    &&& boxes.contains_key(batch.client_id)
    &&& directory.sessions.contains_key(batch.client_id)
    &&& batch.endpoint == directory.sessions[batch.client_id]
    &&& contents_of(batch.messages@) == boxes[batch.client_id].taken(max_items)
}

/// Whether one of the batches is for the client `id`.
pub open spec fn has_batch_for(batches: Seq<OutboundBatch>, id: u32) -> bool {
    exists|k: int| 0 <= k < batches.len() && (#[trigger] batches[k]).client_id == id
}

/// Runs one pass over all mailboxes: for every client that has a mailbox and
/// a session, takes up to `max_items` messages out of the mailbox, so that
/// no client holds up the others. The mailbox of a client without a session
/// is skipped, and the client is named in the result. There is one batch per
/// client served, also when it is empty.
pub fn drain_outbound(
    directory: &SessionDirectory,
    registry: &mut MailboxRegistry,
    max_items: usize,
) -> (pass: OutboundPass)
    requires
        directory.wf(),
        old(registry).wf(),
    ensures
        final(registry).wf(),
        final(registry)@ == after_pass(old(registry)@, directory@, max_items as nat),
        forall|k: int|
            0 <= k < pass.batches@.len() ==> batch_is_due(
                #[trigger] pass.batches@[k],
                old(registry)@,
                directory@,
                max_items as nat,
            ),
        forall|j: int, k: int|
            0 <= j < k < pass.batches@.len() ==> (#[trigger] pass.batches@[j]).client_id != (
            #[trigger] pass.batches@[k]).client_id,
        forall|id: u32|
            old(registry)@.contains_key(id) && directory@.sessions.contains_key(id)
                ==> has_batch_for(pass.batches@, id),
        pass.orphaned@.no_duplicates(),
        forall|id: u32|
            pass.orphaned@.contains(id) <==> old(registry)@.contains_key(id)
                && !directory@.sessions.contains_key(id),
{
    let ids = registry.client_ids();
    let mut batches: Vec<OutboundBatch> = Vec::new();
    let mut orphaned: Vec<u32> = Vec::new();
    let mut i: usize = 0;
    while i < ids.len()
        invariant
            directory.wf(),
            registry.wf(),
            i <= ids@.len(),
            ids@.no_duplicates(),
            forall|id: u32| ids@.contains(id) <==> old(registry)@.contains_key(id),
            forall|id: u32| registry@.contains_key(id) <==> old(registry)@.contains_key(id),
            forall|id: u32| #[trigger]
                registry@.contains_key(id) ==> registry@[id] == if ids@.take(i as int).contains(id)
                    && directory@.sessions.contains_key(id) {
                    old(registry)@[id].drained(max_items as nat)
                } else {
                    old(registry)@[id]
                },
            forall|k: int|
                0 <= k < batches@.len() ==> batch_is_due(
                    #[trigger] batches@[k],
                    old(registry)@,
                    directory@,
                    max_items as nat,
                ) && ids@.take(i as int).contains(batches@[k].client_id),
            forall|j: int, k: int|
                0 <= j < k < batches@.len() ==> (#[trigger] batches@[j]).client_id != (
                #[trigger] batches@[k]).client_id,
            forall|id: u32|
                ids@.take(i as int).contains(id) && directory@.sessions.contains_key(id)
                    ==> has_batch_for(batches@, id),
            orphaned@.no_duplicates(),
            forall|id: u32|
                orphaned@.contains(id) <==> ids@.take(i as int).contains(id)
                    && !directory@.sessions.contains_key(id),
        decreases ids.len() - i,
    {
        let id = ids[i];
        let ghost seen = ids@.take(i as int);
        let ghost registry_before = registry@;
        let ghost batches_before = batches@;
        proof {
            assert(ids@.contains(id));
            assert(!seen.contains(id)) by {
                if seen.contains(id) {
                    let j = choose|j: int| 0 <= j < seen.len() && seen[j] == id;
                    assert(ids@[j] == id);
                }
            }
            assert(ids@.take(i + 1) =~= seen.push(id));
            assert forall|other: u32| ids@.take(i + 1).contains(other) <==> (seen.contains(other)
                || other == id) by {
                if seen.contains(other) {
                    let j = choose|j: int| 0 <= j < seen.len() && seen[j] == other;
                    assert(seen.push(id)[j] == other);
                }
                if other == id {
                    assert(seen.push(id)[i as int] == id);
                }
            }
        }
        match directory.lookup(id) {
            Some(endpoint) => {
                let messages = registry.drain(id, max_items);
                batches.push(OutboundBatch { client_id: id, endpoint, messages });
                proof {
                    assert forall|k: int| 0 <= k < batches_before.len() implies batches@[k]
                        == batches_before[k] by {}
                    assert forall|other: u32|
                        ids@.take(i + 1).contains(other) && directory@.sessions.contains_key(
                            other,
                        ) implies has_batch_for(batches@, other) by {
                        if other == id {
                            assert(batches@[batches_before.len() as int].client_id == id);
                        } else {
                            assert(has_batch_for(batches_before, other));
                            let k = choose|k: int|
                                0 <= k < batches_before.len() && (
                                #[trigger] batches_before[k]).client_id == other;
                            assert(batches@[k].client_id == other);
                        }
                    }
                }
            },
            None => {
                let ghost orphaned_before = orphaned@;
                orphaned.push(id);
                proof {
                    assert(!orphaned_before.contains(id));
                    assert forall|a: int, b: int|
                        0 <= a < orphaned@.len() && 0 <= b < orphaned@.len() && a
                            != b implies orphaned@[a] != orphaned@[b] by {
                        if a < orphaned_before.len() {
                            assert(orphaned_before.contains(orphaned@[a]));
                        }
                        if b < orphaned_before.len() {
                            assert(orphaned_before.contains(orphaned@[b]));
                        }
                    }
                    assert forall|other: u32|
                        orphaned@.contains(other) <==> ids@.take(i + 1).contains(other)
                            && !directory@.sessions.contains_key(other) by {
                        if orphaned@.contains(other) {
                            let k = choose|k: int| 0 <= k < orphaned@.len() && orphaned@[k] == other;
                            if k < orphaned_before.len() {
                                assert(orphaned_before.contains(other));
                            }
                        }
                        if orphaned_before.contains(other) {
                            let k = choose|k: int|
                                0 <= k < orphaned_before.len() && orphaned_before[k] == other;
                            assert(orphaned@[k] == other);
                        }
                        if other == id {
                            assert(orphaned@[orphaned_before.len() as int] == id);
                        }
                    }
                }
            },
        }
        i += 1;
    }
    proof {
        assert(ids@.take(ids@.len() as int) =~= ids@);
        assert(registry@ =~= after_pass(old(registry)@, directory@, max_items as nat));
    }
    OutboundPass { batches, orphaned }
}

} // verus!
