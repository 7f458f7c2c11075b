//! Messages the server sends to its clients.

use vstd::prelude::*;
use crate::game_objects::Player;
use crate::vec2::Vec2;

verus! {

/// A message from the server to one client.
#[derive(Debug, PartialEq, Eq)]
pub enum ServerToClientMessage {
    ClientIDAssignment { new_client_id: u32 },
    Welcome { server_message: String },
    ClientJoined { id: u32 },
    ClientLeft { id: u32 },
    ChatMessage { from: u32, message: String },
    SpawnPlayer { owner_client_id: u32, entity_id: u32, pos: Vec2 },
    EntityPosition { entity_id: u32, pos: Vec2 },
    AllPlayers { players: Vec<Player> },
}

/// What a server message says: the message with its texts as sequences of
/// characters and its list of players as a sequence.
pub ghost enum ServerMessageContent {
    ClientIDAssignment { new_client_id: u32 },
    Welcome { server_message: Seq<char> },
    ClientJoined { id: u32 },
    ClientLeft { id: u32 },
    ChatMessage { from: u32, message: Seq<char> },
    SpawnPlayer { owner_client_id: u32, entity_id: u32, pos: Vec2 },
    EntityPosition { entity_id: u32, pos: Vec2 },
    AllPlayers { players: Seq<Player> },
}

impl View for ServerToClientMessage {
    type V = ServerMessageContent;

    open spec fn view(&self) -> ServerMessageContent {
        match *self {
            ServerToClientMessage::ClientIDAssignment { new_client_id } => {
                ServerMessageContent::ClientIDAssignment { new_client_id }
            },
            ServerToClientMessage::Welcome { server_message } => ServerMessageContent::Welcome {
                server_message: server_message@,
            },
            ServerToClientMessage::ClientJoined { id } => ServerMessageContent::ClientJoined { id },
            ServerToClientMessage::ClientLeft { id } => ServerMessageContent::ClientLeft { id },
            ServerToClientMessage::ChatMessage { from, message } => {
                ServerMessageContent::ChatMessage { from, message: message@ }
            },
            ServerToClientMessage::SpawnPlayer { owner_client_id, entity_id, pos } => {
                ServerMessageContent::SpawnPlayer { owner_client_id, entity_id, pos }
            },
            ServerToClientMessage::EntityPosition { entity_id, pos } => {
                ServerMessageContent::EntityPosition { entity_id, pos }
            },
            ServerToClientMessage::AllPlayers { players } => ServerMessageContent::AllPlayers {
                players: players@,
            },
        }
    }
}

/// A copy of a list of players.
pub fn copy_players(players: &Vec<Player>) -> (copy: Vec<Player>)
    ensures
        copy@ == players@,
{
    let mut copy: Vec<Player> = Vec::new();
    let mut i: usize = 0;
    while i < players.len()
        invariant
            i <= players.len(),
            copy@ == players@.take(i as int),
        decreases players.len() - i,
    {
        copy.push(players[i]);
        i += 1;
    }
    copy
}

impl Clone for ServerToClientMessage {
    /// A message that says the same.
    fn clone(&self) -> (copy: Self)
        ensures
            copy@ == self@,
    {
        match self {
            ServerToClientMessage::ClientIDAssignment { new_client_id } => {
                ServerToClientMessage::ClientIDAssignment { new_client_id: *new_client_id }
            },
            ServerToClientMessage::Welcome { server_message } => ServerToClientMessage::Welcome {
                server_message: server_message.clone(),
            },
            ServerToClientMessage::ClientJoined { id } => ServerToClientMessage::ClientJoined {
                id: *id,
            },
            ServerToClientMessage::ClientLeft { id } => ServerToClientMessage::ClientLeft {
                id: *id,
            },
            ServerToClientMessage::ChatMessage { from, message } => {
                ServerToClientMessage::ChatMessage { from: *from, message: message.clone() }
            },
            ServerToClientMessage::SpawnPlayer { owner_client_id, entity_id, pos } => {
                ServerToClientMessage::SpawnPlayer {
                    owner_client_id: *owner_client_id,
                    entity_id: *entity_id,
                    pos: *pos,
                }
            },
            ServerToClientMessage::EntityPosition { entity_id, pos } => {
                ServerToClientMessage::EntityPosition { entity_id: *entity_id, pos: *pos }
            },
            ServerToClientMessage::AllPlayers { players } => ServerToClientMessage::AllPlayers {
                players: copy_players(players),
            },
        }
    }
}

} // verus!
