//! The session directory: which client id belongs to which endpoint.

use vstd::prelude::*;
use crate::endpoint::Endpoint;

verus! {

/// What a session directory knows: the endpoint of every client with a
/// session, and the id that the next new client gets.
pub ghost struct DirectoryModel {
    pub sessions: Map<u32, Endpoint>,
    pub next_id: nat,
}

impl DirectoryModel {
    /// The directory with no session that has issued no id yet.
    pub open spec fn empty() -> DirectoryModel {
        DirectoryModel { sessions: Map::empty(), next_id: 0 }
    }

    /// Whether some client has its session at `endpoint`.
    pub open spec fn knows(self, endpoint: Endpoint) -> bool {
        exists|id: u32| #[trigger] self.sessions.contains_key(id) && self.sessions[id] == endpoint
    }

    /// The client whose session is at `endpoint`, where there is one.
    pub open spec fn id_of(self, endpoint: Endpoint) -> u32 {
        choose|id: u32| #[trigger] self.sessions.contains_key(id) && self.sessions[id] == endpoint
    }

    /// The client at `endpoint`, if any.
    pub open spec fn find(self, endpoint: Endpoint) -> Option<u32> {
        if self.knows(endpoint) {
            Some(self.id_of(endpoint))
        } else {
            None
        }
    }

    /// The endpoint of the client `id`, if it has a session.
    pub open spec fn lookup(self, id: u32) -> Option<Endpoint> {
        if self.sessions.contains_key(id) {
            Some(self.sessions[id])
        } else {
            None
        }
    }

    /// Whether every id has been issued, so that no new client can join.
    pub open spec fn exhausted(self) -> bool {
        self.next_id >= u32::MAX
    }

    /// No two clients share an endpoint, and every id in use lies below the
    /// next one to be issued (or no id is left to issue).
    pub open spec fn wf(self) -> bool {
        &&& self.next_id <= u32::MAX
        &&& forall|id: u32| #[trigger]
            self.sessions.contains_key(id) ==> id < self.next_id || self.exhausted()
        &&& forall|a: u32, b: u32|
            #[trigger] self.sessions.contains_key(a) && #[trigger] self.sessions.contains_key(b)
                && self.sessions[a] == self.sessions[b] ==> a == b
    }

    /// Whether resolving `endpoint` opens a new session.
    pub open spec fn admits(self, endpoint: Endpoint) -> bool {
        !self.knows(endpoint) && !self.exhausted()
    }

    /// The directory after `endpoint` was resolved: unchanged if the endpoint
    /// has a session or no id is left, and otherwise with a new session under
    /// the next id.
    pub open spec fn after_resolve(self, endpoint: Endpoint) -> DirectoryModel {
        if self.admits(endpoint) {
            DirectoryModel {
                sessions: self.sessions.insert(self.next_id as u32, endpoint),
                next_id: self.next_id + 1,
            }
        } else {
            self
        }
    }

    /// The id that resolving `endpoint` returns: that of its session, or the
    /// next id for a new session, or nothing if no id is left.
    pub open spec fn resolved(self, endpoint: Endpoint) -> Option<u32> {
        if self.knows(endpoint) {
            Some(self.id_of(endpoint))
        } else if self.exhausted() {
            None
        } else {
            Some(self.next_id as u32)
        }
    }

    /// Why `id` cannot be registered at `endpoint`, if it cannot.
    pub open spec fn register_error(self, id: u32, endpoint: Endpoint) -> Option<RegisterError> {
        if self.sessions.contains_key(id) {
            Some(RegisterError::ClientIdInUse)
        } else if self.knows(endpoint) {
            Some(RegisterError::EndpointInUse)
        } else {
            None
        }
    }

    /// The directory after `id` was registered at `endpoint`: unchanged if
    /// that is refused, and otherwise with the new session; ids up to `id`
    /// are then never issued.
    pub open spec fn after_register(self, id: u32, endpoint: Endpoint) -> DirectoryModel {
        if self.register_error(id, endpoint) is Some {
            self
        } else {
            DirectoryModel {
                sessions: self.sessions.insert(id, endpoint),
                next_id: if id < self.next_id {
                    self.next_id
                } else if id == u32::MAX {
                    u32::MAX as nat
                } else {
                    (id + 1) as nat
                },
            }
        }
    }

    /// The directory after the session of `id` was removed. The id is not
    /// issued again.
    pub open spec fn after_remove(self, id: u32) -> DirectoryModel {
        DirectoryModel { sessions: self.sessions.remove(id), next_id: self.next_id }
    }
}

/// Why a session could not be registered.
#[derive(Clone, Copy, Debug, PartialEq, Eq, Structural)]
pub enum RegisterError {
    /// The client id already has a session.
    ClientIdInUse,
    /// Another client has its session at the endpoint.
    EndpointInUse,
}

/// Hands out the next connection id and moves the counter on. Returns `None`,
/// and leaves the counter, when the counter has reached the largest value:
/// no id is ever handed out twice.
pub fn get_next_connection_id(next_connection_id: &mut u32) -> (id: Option<u32>)
    ensures
        *old(next_connection_id) < u32::MAX ==> id == Some(*old(next_connection_id))
            && *final(next_connection_id) == *old(next_connection_id) + 1,
        *old(next_connection_id) == u32::MAX ==> id is None && *final(next_connection_id)
            == *old(next_connection_id),
{
    let id: u32 = *next_connection_id;
    if id < u32::MAX {
        *next_connection_id = id + 1;
        Some(id)
    } else {
        None
    }
}

/// One session: a client and the endpoint it sends from.
#[derive(Clone, Copy)]
struct Session {
    client_id: u32,
    endpoint: Endpoint,
}

/// Whether a session of the list belongs to the client `id`.
spec fn has_id(sessions: Seq<Session>, id: u32) -> bool {
    exists|i: int| 0 <= i < sessions.len() && (#[trigger] sessions[i]).client_id == id
}

/// The place of the session of client `id` in the list, where there is one.
spec fn index_of_id(sessions: Seq<Session>, id: u32) -> int {
    choose|i: int| 0 <= i < sessions.len() && (#[trigger] sessions[i]).client_id == id
}

/// The list as a map from client to endpoint.
spec fn sessions_of(sessions: Seq<Session>) -> Map<u32, Endpoint> {
    Map::new(|id: u32| has_id(sessions, id), |id: u32| sessions[index_of_id(sessions, id)].endpoint)
}

/// No client and no endpoint occurs twice in the list.
spec fn distinct(sessions: Seq<Session>) -> bool {
    forall|i: int, j: int|
        0 <= i < j < sessions.len() ==> (#[trigger] sessions[i]).client_id != (
        #[trigger] sessions[j]).client_id && sessions[i].endpoint != sessions[j].endpoint
}

/// In a list without repetition, the map holds exactly the list's sessions.
proof fn lemma_sessions_of(sessions: Seq<Session>)
    requires
        distinct(sessions),
    ensures
        forall|i: int|
            0 <= i < sessions.len() ==> sessions_of(sessions).contains_key(
                (#[trigger] sessions[i]).client_id,
            ) && sessions_of(sessions)[sessions[i].client_id] == sessions[i].endpoint,
        forall|id: u32| #[trigger]
            sessions_of(sessions).contains_key(id) ==> 0 <= index_of_id(sessions, id)
                < sessions.len() && sessions[index_of_id(sessions, id)].client_id == id,
{
    assert forall|i: int| 0 <= i < sessions.len() implies sessions_of(sessions).contains_key(
        (#[trigger] sessions[i]).client_id,
    ) && sessions_of(sessions)[sessions[i].client_id] == sessions[i].endpoint by {
        let id = sessions[i].client_id;
        assert(has_id(sessions, id));
        let j = index_of_id(sessions, id);
        assert(sessions[j].client_id == id);
        assert(i == j);
    }
}

/// The bijection between client ids and endpoints, and the counter from
/// which new ids are issued.
pub struct SessionDirectory {
    entries: Vec<Session>,
    next_id: u32,
}

impl View for SessionDirectory {
    type V = DirectoryModel;

    closed spec fn view(&self) -> DirectoryModel {
        DirectoryModel { sessions: sessions_of(self.entries@), next_id: self.next_id as nat }
    }
}

impl SessionDirectory {
    /// The directory stores every session once, and what it knows is
    /// well-formed.
    pub closed spec fn wf(&self) -> bool {
        &&& distinct(self.entries@)
        &&& self@.wf()
    }

    /// What a well-formed directory knows is well-formed.
    pub proof fn lemma_model_wf(&self)
        requires
            self.wf(),
        ensures
            self@.wf(),
    {
    }

    /// A directory with no session that has issued no id yet.
    pub fn new() -> (directory: SessionDirectory)
        ensures
            directory.wf(),
            directory@ == DirectoryModel::empty(),
    {
        let directory = SessionDirectory { entries: Vec::new(), next_id: 0 };
        proof {
            assert(sessions_of(directory.entries@) =~= Map::<u32, Endpoint>::empty());
        }
        directory
    }

    /// The place of the session at `endpoint` in the list, if there is one.
    fn position_of_endpoint(&self, endpoint: Endpoint) -> (place: Option<usize>)
        requires
            self.wf(),
        ensures
            place is Some <==> self@.knows(endpoint),
            place is Some ==> place->Some_0 < self.entries@.len()
                && self.entries@[place->Some_0 as int].endpoint == endpoint
                && self@.id_of(endpoint) == self.entries@[place->Some_0 as int].client_id,
    {
        proof {
            lemma_sessions_of(self.entries@);
        }
        let mut i: usize = 0;
        while i < self.entries.len()
            invariant
                self.wf(),
                i <= self.entries@.len(),
                forall|k: int| 0 <= k < i ==> (#[trigger] self.entries@[k]).endpoint != endpoint,
            decreases self.entries.len() - i,
        {
            if self.entries[i].endpoint == endpoint {
                proof {
                    lemma_sessions_of(self.entries@);
                    let found = self.entries@[i as int].client_id;
                    assert(self@.sessions.contains_key(found) && self@.sessions[found] == endpoint);
                    let chosen = self@.id_of(endpoint);
                    assert(self@.sessions.contains_key(chosen) && self@.sessions[chosen]
                        == endpoint);
                    assert(chosen == found);
                }
                return Some(i);
            }
            i += 1;
        }
        proof {
            if self@.knows(endpoint) {
                let id = self@.id_of(endpoint);
                assert(self@.sessions.contains_key(id) && self@.sessions[id] == endpoint);
                let k = index_of_id(self.entries@, id);
                assert(self.entries@[k].endpoint == endpoint);
            }
        }
        None
    }

    /// The place of the session of client `id` in the list, if there is one.
    fn position_of_id(&self, id: u32) -> (place: Option<usize>)
        requires
            self.wf(),
        ensures
            place is Some <==> self@.sessions.contains_key(id),
            place is Some ==> place->Some_0 < self.entries@.len()
                && self.entries@[place->Some_0 as int].client_id == id
                && self@.sessions[id] == self.entries@[place->Some_0 as int].endpoint,
    {
        proof {
            lemma_sessions_of(self.entries@);
        }
        let mut i: usize = 0;
        while i < self.entries.len()
            invariant
                self.wf(),
                i <= self.entries@.len(),
                forall|k: int| 0 <= k < i ==> (#[trigger] self.entries@[k]).client_id != id,
            decreases self.entries.len() - i,
        {
            if self.entries[i].client_id == id {
                proof {
                    lemma_sessions_of(self.entries@);
                }
                return Some(i);
            }
            i += 1;
        }
        None
    }

    /// The client whose session is at `endpoint`, if any.
    pub fn find(&self, endpoint: Endpoint) -> (id: Option<u32>)
        requires
            self.wf(),
        ensures
            id == self@.find(endpoint),
    {
        match self.position_of_endpoint(endpoint) {
            Some(place) => Some(self.entries[place].client_id),
            None => None,
        }
    }

    /// The endpoint of the client `id`, if it has a session.
    pub fn lookup(&self, id: u32) -> (endpoint: Option<Endpoint>)
        requires
            self.wf(),
        ensures
            endpoint == self@.lookup(id),
    {
        match self.position_of_id(id) {
            Some(place) => Some(self.entries[place].endpoint),
            None => None,
        }
    }

    /// Adds a session that the directory does not hold yet.
    fn insert(&mut self, id: u32, endpoint: Endpoint, next_id: u32)
        requires
            old(self).wf(),
            !old(self)@.sessions.contains_key(id),
            !old(self)@.knows(endpoint),
            old(self).next_id <= next_id,
            id < next_id || next_id == u32::MAX,
        ensures
            final(self).wf(),
            final(self)@ == (DirectoryModel {
                sessions: old(self)@.sessions.insert(id, endpoint),
                next_id: next_id as nat,
            }),
    {
        proof {
            lemma_sessions_of(self.entries@);
        }
        self.entries.push(Session { client_id: id, endpoint });
        self.next_id = next_id;
        proof {
            let before = old(self).entries@;
            let after = self.entries@;
            assert(after == before.push(Session { client_id: id, endpoint }));
            assert forall|i: int, j: int| 0 <= i < j < after.len() implies (#[trigger] after[i]).client_id
                != (#[trigger] after[j]).client_id && after[i].endpoint != after[j].endpoint by {
                if j == before.len() {
                    assert(after[i] == before[i]);
                    let other = before[i].client_id;
                    assert(old(self)@.sessions.contains_key(other));
                }
            }
            lemma_sessions_of(after);
            assert forall|k: u32| #[trigger]
                sessions_of(after).contains_key(k) <==> old(self)@.sessions.insert(
                    id,
                    endpoint,
                ).contains_key(k) by {
                if has_id(after, k) {
                    let i = index_of_id(after, k);
                    if i < before.len() {
                        assert(before[i].client_id == k);
                    }
                }
                if has_id(before, k) {
                    let i = index_of_id(before, k);
                    assert(after[i].client_id == k);
                }
                if k == id {
                    assert(after[before.len() as int].client_id == k);
                }
            }
            assert forall|k: u32| #[trigger] sessions_of(after).contains_key(k) implies sessions_of(
                after,
            )[k] == old(self)@.sessions.insert(id, endpoint)[k] by {
                let i = index_of_id(after, k);
                if i < before.len() {
                    assert(before[i].client_id == k);
                }
            }
            assert(sessions_of(after) =~= old(self)@.sessions.insert(id, endpoint));
            assert forall|a: u32, b: u32|
                #[trigger] self@.sessions.contains_key(a) && #[trigger] self@.sessions.contains_key(
                    b,
                ) && self@.sessions[a] == self@.sessions[b] implies a == b by {
                if a != id && b != id {
                    assert(old(self)@.sessions.contains_key(a));
                    assert(old(self)@.sessions.contains_key(b));
                } else if a != id {
                    assert(old(self)@.sessions.contains_key(a));
                } else if b != id {
                    assert(old(self)@.sessions.contains_key(b));
                }
            }
            assert forall|k: u32| #[trigger] self@.sessions.contains_key(k) implies k
                < self@.next_id || self@.exhausted() by {
                if k != id {
                    assert(old(self)@.sessions.contains_key(k));
                }
            }
        }
    }

    /// The client id of `endpoint`: that of its session if it has one, and
    /// otherwise the next unused id, under which a session is opened. Returns
    /// `None`, and changes nothing, when the endpoint is new and every id has
    /// been issued.
    pub fn resolve(&mut self, endpoint: Endpoint) -> (id: Option<u32>)
        requires
            old(self).wf(),
        ensures
            final(self).wf(),
            id == old(self)@.resolved(endpoint),
            final(self)@ == old(self)@.after_resolve(endpoint),
    {
        match self.position_of_endpoint(endpoint) {
            Some(place) => Some(self.entries[place].client_id),
            None => {
                let mut counter: u32 = self.next_id;
                match get_next_connection_id(&mut counter) {
                    Some(id) => {
                        self.insert(id, endpoint, counter);
                        Some(id)
                    },
                    None => None,
                }
            },
        }
    }

    /// Opens a session for the client `id` at `endpoint`, unless the id or
    /// the endpoint already has one. Ids up to `id` are never issued
    /// afterwards.
    pub fn register(&mut self, id: u32, endpoint: Endpoint) -> (result: Result<(), RegisterError>)
        requires
            old(self).wf(),
        ensures
            final(self).wf(),
            result == match old(self)@.register_error(id, endpoint) {
                Some(error) => Err::<(), RegisterError>(error),
                None => Ok::<(), RegisterError>(()),
            },
            final(self)@ == old(self)@.after_register(id, endpoint),
    {
        if self.position_of_id(id).is_some() {
            return Err(RegisterError::ClientIdInUse);
        }
        if self.position_of_endpoint(endpoint).is_some() {
            return Err(RegisterError::EndpointInUse);
        }
        let next_id: u32 = if id < self.next_id {
            self.next_id
        } else if id == u32::MAX {
            u32::MAX
        } else {
            id + 1
        };
        self.insert(id, endpoint, next_id);
        Ok(())
    }

    /// Closes the session of the client `id` and returns its endpoint, if it
    /// had a session. The id is not issued again.
    pub fn remove(&mut self, id: u32) -> (endpoint: Option<Endpoint>)
        requires
            old(self).wf(),
        ensures
            final(self).wf(),
            endpoint == old(self)@.lookup(id),
            final(self)@ == old(self)@.after_remove(id),
    {
        match self.position_of_id(id) {
            Some(place) => {
                proof {
                    lemma_sessions_of(self.entries@);
                }
                let session = self.entries.remove(place);
                proof {
                    let before = old(self).entries@;
                    let after = self.entries@;
                    let p = place as int;
                    assert(after == before.remove(p));
                    assert forall|i: int| 0 <= i < after.len() implies #[trigger] after[i]
                        == before[if i < p {
                        i
                    } else {
                        i + 1
                    }] by {}
                    assert forall|i: int, j: int| 0 <= i < j < after.len() implies (
                    #[trigger] after[i]).client_id != (#[trigger] after[j]).client_id
                        && after[i].endpoint != after[j].endpoint by {
                        let source = if i < p { i } else { i + 1 };
                        let other_source = if j < p { j } else { j + 1 };
                        assert(after[i] == before[source]);
                        assert(after[j] == before[other_source]);
                    }
                    lemma_sessions_of(after);
                    assert forall|k: u32| #[trigger]
                        sessions_of(after).contains_key(k) <==> old(self)@.sessions.remove(
                            id,
                        ).contains_key(k) by {
                        if has_id(after, k) {
                            let i = index_of_id(after, k);
                            let source = if i < p { i } else { i + 1 };
                            assert(before[source].client_id == k);
                        }
                        if has_id(before, k) && k != id {
                            let i = index_of_id(before, k);
                            let shifted = if i < p { i } else { i - 1 };
                            assert(after[shifted].client_id == k);
                        }
                    }
                    assert forall|k: u32| #[trigger]
                        sessions_of(after).contains_key(k) implies sessions_of(after)[k]
                        == old(self)@.sessions.remove(id)[k] by {
                        let i = index_of_id(after, k);
                        let source = if i < p { i } else { i + 1 };
                        assert(before[source].client_id == k);
                    }
                    assert(sessions_of(after) =~= old(self)@.sessions.remove(id));
                    assert forall|a: u32, b: u32|
                        #[trigger] self@.sessions.contains_key(a)
                            && #[trigger] self@.sessions.contains_key(b) && self@.sessions[a]
                            == self@.sessions[b] implies a == b by {
                        assert(old(self)@.sessions.contains_key(a));
                        assert(old(self)@.sessions.contains_key(b));
                    }
                    assert forall|k: u32| #[trigger] self@.sessions.contains_key(k) implies k
                        < self@.next_id || self@.exhausted() by {
                        assert(old(self)@.sessions.contains_key(k));
                    }
                }
                Some(session.endpoint)
            },
            None => {
                proof {
                    assert(old(self)@.sessions.remove(id) =~= old(self)@.sessions);
                }
                None
            },
        }
    }

    /// The number of sessions.
    pub fn len(&self) -> (count: usize)
        requires
            self.wf(),
        ensures
            count == self@.sessions.dom().len(),
    {
        proof {
            lemma_session_count(self.entries@);
        }
        self.entries.len()
    }

    /// The id that the next new client gets, unless it is the last value of
    /// the counter, which is never issued.
    pub fn next_id(&self) -> (next: u32)
        ensures
            next == self@.next_id,
    {
        self.next_id
    }
}

/// A list without repetition has as many sessions as its map has clients.
proof fn lemma_session_count(sessions: Seq<Session>)
    requires
        distinct(sessions),
    ensures
        sessions_of(sessions).dom().finite(),
        sessions_of(sessions).dom().len() == sessions.len(),
    decreases sessions.len(),
{
    if sessions.len() == 0 {
        assert(sessions_of(sessions).dom() =~= Set::<u32>::empty());
    } else {
        let shorter = sessions.drop_last();
        let last = sessions.last();
        assert forall|i: int, j: int| 0 <= i < j < shorter.len() implies (#[trigger] shorter[i]).client_id
            != (#[trigger] shorter[j]).client_id && shorter[i].endpoint != shorter[j].endpoint by {
            assert(shorter[i] == sessions[i]);
            assert(shorter[j] == sessions[j]);
        }
        lemma_session_count(shorter);
        assert(!sessions_of(shorter).dom().contains(last.client_id)) by {
            if has_id(shorter, last.client_id) {
                let i = index_of_id(shorter, last.client_id);
                assert(shorter[i] == sessions[i]);
                assert(sessions[sessions.len() - 1] == last);
            }
        }
        assert(sessions_of(sessions).dom() =~= sessions_of(shorter).dom().insert(last.client_id))
            by {
            assert forall|k: u32|
                sessions_of(sessions).dom().contains(k) <==> sessions_of(shorter).dom().insert(
                    last.client_id,
                ).contains(k) by {
                if has_id(sessions, k) {
                    let i = index_of_id(sessions, k);
                    if i < shorter.len() {
                        assert(shorter[i].client_id == k);
                    }
                }
                if has_id(shorter, k) {
                    let i = index_of_id(shorter, k);
                    assert(sessions[i].client_id == k);
                }
                if k == last.client_id {
                    assert(sessions[sessions.len() - 1].client_id == k);
                }
            }
        }
    }
}

/// One operation on a session directory.
pub ghost enum DirectoryOp {
    Resolve { endpoint: Endpoint },
    Register { id: u32, endpoint: Endpoint },
    Remove { id: u32 },
}

impl DirectoryModel {
    /// The directory after `endpoint` was resolved `times` times in a row.
    pub open spec fn after_resolves(self, endpoint: Endpoint, times: nat) -> DirectoryModel
        decreases times,
    {
        if times == 0 {
            self
        } else {
            self.after_resolve(endpoint).after_resolves(endpoint, (times - 1) as nat)
        }
    }

    /// The directory after the operation `op`.
    pub open spec fn after_op(self, op: DirectoryOp) -> DirectoryModel {
        match op {
            DirectoryOp::Resolve { endpoint } => self.after_resolve(endpoint),
            DirectoryOp::Register { id, endpoint } => self.after_register(id, endpoint),
            DirectoryOp::Remove { id } => self.after_remove(id),
        }
    }

    /// The directory after each of the operations `ops` in turn.
    pub open spec fn after_ops(self, ops: Seq<DirectoryOp>) -> DirectoryModel
        decreases ops.len(),
    {
        if ops.len() == 0 {
            self
        } else {
            self.after_op(ops[0]).after_ops(ops.skip(1))
        }
    }

    /// Every operation leaves the directory well-formed and never moves the
    /// counter of ids back.
    pub proof fn lemma_op_keeps_wf(self, op: DirectoryOp)
        requires
            self.wf(),
        ensures
            self.after_op(op).wf(),
            self.after_op(op).next_id >= self.next_id,
    {
        let after = self.after_op(op);
        match op {
            DirectoryOp::Resolve { endpoint } => {
                if self.admits(endpoint) {
                    let id = self.next_id as u32;
                    assert forall|a: u32, b: u32|
                        #[trigger] after.sessions.contains_key(a)
                            && #[trigger] after.sessions.contains_key(b) && after.sessions[a]
                            == after.sessions[b] implies a == b by {
                        if a != id {
                            assert(self.sessions.contains_key(a));
                        }
                        if b != id {
                            assert(self.sessions.contains_key(b));
                        }
                    }
                    assert forall|k: u32| #[trigger] after.sessions.contains_key(k) implies k
                        < after.next_id || after.exhausted() by {
                        if k != id {
                            assert(self.sessions.contains_key(k));
                        }
                    }
                }
            },
            DirectoryOp::Register { id, endpoint } => {
                if self.register_error(id, endpoint) is None {
                    assert forall|a: u32, b: u32|
                        #[trigger] after.sessions.contains_key(a)
                            && #[trigger] after.sessions.contains_key(b) && after.sessions[a]
                            == after.sessions[b] implies a == b by {
                        if a != id {
                            assert(self.sessions.contains_key(a));
                        }
                        if b != id {
                            assert(self.sessions.contains_key(b));
                        }
                    }
                    assert forall|k: u32| #[trigger] after.sessions.contains_key(k) implies k
                        < after.next_id || after.exhausted() by {
                        if k != id {
                            assert(self.sessions.contains_key(k));
                        }
                    }
                }
            },
            DirectoryOp::Remove { id } => {
                assert forall|a: u32, b: u32|
                    #[trigger] after.sessions.contains_key(a)
                        && #[trigger] after.sessions.contains_key(b) && after.sessions[a]
                        == after.sessions[b] implies a == b by {
                    assert(self.sessions.contains_key(a));
                    assert(self.sessions.contains_key(b));
                }
                assert forall|k: u32| #[trigger] after.sessions.contains_key(k) implies k
                    < after.next_id || after.exhausted() by {
                    assert(self.sessions.contains_key(k));
                }
            },
        }
    }

    /// Every sequence of operations leaves the directory well-formed and
    /// never moves the counter of ids back.
    pub proof fn lemma_ops_keep_wf(self, ops: Seq<DirectoryOp>)
        requires
            self.wf(),
        ensures
            self.after_ops(ops).wf(),
            self.after_ops(ops).next_id >= self.next_id,
        decreases ops.len(),
    {
        if ops.len() > 0 {
            self.lemma_op_keeps_wf(ops[0]);
            self.after_op(ops[0]).lemma_ops_keep_wf(ops.skip(1));
        }
    }

    /// The sessions are a bijection: the client found at the endpoint of a
    /// client is that client, and the endpoint of the client found at an
    /// endpoint is that endpoint.
    pub proof fn lemma_bijection(self)
        requires
            self.wf(),
        ensures
            forall|id: u32| #[trigger]
                self.sessions.contains_key(id) ==> self.find(self.sessions[id]) == Some(id),
            forall|endpoint: Endpoint|
                self.knows(endpoint) ==> self.lookup(#[trigger] self.id_of(endpoint)) == Some(
                    endpoint,
                ),
    {
        assert forall|id: u32| #[trigger] self.sessions.contains_key(id) implies self.find(
            self.sessions[id],
        ) == Some(id) by {
            let endpoint = self.sessions[id];
            let found = self.id_of(endpoint);
            assert(self.sessions.contains_key(found) && self.sessions[found] == endpoint);
        }
    }
}

/// Resolving the same endpoint again gives the same client id and changes
/// nothing: however often an endpoint is resolved, every call returns what
/// the first call returned, and the directory stays as the first call left
/// it, so that no further id is issued.
pub proof fn lemma_resolve_is_stable(directory: DirectoryModel, endpoint: Endpoint, times: nat)
    requires
        directory.wf(),
    ensures
        directory.after_resolves(endpoint, times).resolved(endpoint) == directory.resolved(
            endpoint,
        ),
        times >= 1 ==> directory.after_resolves(endpoint, times) == directory.after_resolve(
            endpoint,
        ),
        directory.after_resolves(endpoint, times).wf(),
    decreases times,
{
    let first = directory.after_resolve(endpoint);
    directory.lemma_op_keeps_wf(DirectoryOp::Resolve { endpoint });
    if directory.admits(endpoint) {
        let id = directory.next_id as u32;
        assert(first.sessions.contains_key(id) && first.sessions[id] == endpoint);
        let found = first.id_of(endpoint);
        assert(first.sessions.contains_key(found) && first.sessions[found] == endpoint);
    } else if directory.knows(endpoint) {
        let found = directory.id_of(endpoint);
        assert(directory.sessions.contains_key(found) && directory.sessions[found] == endpoint);
    }
    assert(first.after_resolve(endpoint) == first);
    assert(first.resolved(endpoint) == directory.resolved(endpoint));
    if times >= 1 {
        lemma_resolve_is_stable(first, endpoint, (times - 1) as nat);
        if times >= 2 {
            assert(first.after_resolves(endpoint, (times - 1) as nat) == first.after_resolve(
                endpoint,
            ));
        }
    }
}

/// Client ids are issued in strictly increasing order and never twice: if
/// resolving `first` opens a session, and later, after any operations on the
/// directory, resolving `second` opens a session, then the later id is larger
/// than the earlier one. A new id is also larger than the id of every client
/// that has a session.
pub proof fn lemma_issued_ids_increase(
    directory: DirectoryModel,
    first: Endpoint,
    ops: Seq<DirectoryOp>,
    second: Endpoint,
)
    requires
        directory.wf(),
        directory.admits(first),
        directory.after_resolve(first).after_ops(ops).admits(second),
    ensures
        directory.resolved(first) is Some,
        directory.after_resolve(first).after_ops(ops).resolved(second) is Some,
        directory.resolved(first)->Some_0 < directory.after_resolve(first).after_ops(ops).resolved(
            second,
        )->Some_0,
        forall|id: u32| #[trigger]
            directory.sessions.contains_key(id) ==> id < directory.resolved(first)->Some_0,
{
    directory.lemma_op_keeps_wf(DirectoryOp::Resolve { endpoint: first });
    directory.after_resolve(first).lemma_ops_keep_wf(ops);
}

} // verus!
