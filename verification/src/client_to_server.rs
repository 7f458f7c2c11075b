//! Messages the clients send to the server.

use vstd::prelude::*;
use crate::vec2::Vec2;

verus! {

/// What a client asks of the server.
#[derive(Debug, PartialEq, Eq)]
pub enum ClientToServerMessageData {
    Connect,
    Disconnect,
    ChatMessage { message: String },
    RequestToSpawnPlayer,
    RequestAllPlayers,
    EntityPosition { entity_id: u32, pos: Vec2 },
}

/// What a client request says, with its text as a sequence of characters.
pub ghost enum ClientRequest {
    Connect,
    Disconnect,
    ChatMessage { message: Seq<char> },
    RequestToSpawnPlayer,
    RequestAllPlayers,
    EntityPosition { entity_id: u32, pos: Vec2 },
}

impl View for ClientToServerMessageData {
    type V = ClientRequest;

    open spec fn view(&self) -> ClientRequest {
        match *self {
            ClientToServerMessageData::Connect => ClientRequest::Connect,
            ClientToServerMessageData::Disconnect => ClientRequest::Disconnect,
            ClientToServerMessageData::ChatMessage { message } => ClientRequest::ChatMessage {
                message: message@,
            },
            ClientToServerMessageData::RequestToSpawnPlayer => ClientRequest::RequestToSpawnPlayer,
            ClientToServerMessageData::RequestAllPlayers => ClientRequest::RequestAllPlayers,
            ClientToServerMessageData::EntityPosition { entity_id, pos } => {
                ClientRequest::EntityPosition { entity_id, pos }
            },
        }
    }
}

impl Clone for ClientToServerMessageData {
    /// A request that says the same.
    fn clone(&self) -> (copy: Self)
        ensures
            copy@ == self@,
    {
        match self {
            ClientToServerMessageData::Connect => ClientToServerMessageData::Connect,
            ClientToServerMessageData::Disconnect => ClientToServerMessageData::Disconnect,
            ClientToServerMessageData::ChatMessage { message } => {
                ClientToServerMessageData::ChatMessage { message: message.clone() }
            },
            ClientToServerMessageData::RequestToSpawnPlayer => {
                ClientToServerMessageData::RequestToSpawnPlayer
            },
            ClientToServerMessageData::RequestAllPlayers => {
                ClientToServerMessageData::RequestAllPlayers
            },
            ClientToServerMessageData::EntityPosition { entity_id, pos } => {
                ClientToServerMessageData::EntityPosition { entity_id: *entity_id, pos: *pos }
            },
        }
    }
}

/// A request as it travels: with the time at which the client sent it.
#[derive(Debug, PartialEq, Eq)]
pub struct ClientToServerMessage {
    pub send_time: i64,
    pub data: ClientToServerMessageData,
}

impl ClientToServerMessage {
    /// The request `data`, sent at `send_time`.
    pub fn new(send_time: i64, data: ClientToServerMessageData) -> (message: Self)
        ensures
            message.send_time == send_time,
            message.data == data,
    {
        Self { send_time, data }
    }
}

/// A request that the server has received and attributed to a client.
#[derive(Debug, PartialEq, Eq)]
pub struct ClientToServerMessageBundle {
    pub client_id: u32,
    pub send_time: i64,
    pub received_time: i64,
    pub message: ClientToServerMessageData,
}

/// What a received request says and who sent it when.
pub ghost struct AttributedRequest {
    pub client_id: u32,
    pub send_time: i64,
    pub received_time: i64,
    pub request: ClientRequest,
}

impl View for ClientToServerMessageBundle {
    type V = AttributedRequest;

    open spec fn view(&self) -> AttributedRequest {
        AttributedRequest {
            client_id: self.client_id,
            send_time: self.send_time,
            received_time: self.received_time,
            request: self.message@,
        }
    }
}

impl ClientToServerMessageBundle {
    /// The request `message` as received from the client `client_id` at
    /// `received_time`.
    pub fn new(client_id: u32, message: ClientToServerMessage, received_time: i64) -> (bundle: Self)
        ensures
            bundle.client_id == client_id,
            bundle.send_time == message.send_time,
            bundle.received_time == received_time,
            bundle.message == message.data,
    {
        Self { client_id, send_time: message.send_time, received_time, message: message.data }
    }
}

impl Clone for ClientToServerMessageBundle {
    /// A bundle that says the same.
    fn clone(&self) -> (copy: Self)
        ensures
            copy@ == self@,
    {
        Self {
            client_id: self.client_id,
            send_time: self.send_time,
            received_time: self.received_time,
            message: self.message.clone(),
        }
    }
}

} // verus!
