//! Authoritative server core of a small multiplayer game.
//!
//! Clients are identified by the endpoint they send from. The session
//! directory gives each endpoint a stable client id, the mailbox registry
//! holds one bounded outbound queue per client, and the game loop applies
//! the clients' requests in arrival order and advances every entity in fixed
//! timesteps. Everything here is free of I/O: the caller reads and writes the
//! socket and the clock, and hands plain values in and out.
//!
//! Every type has a mathematical model, its view, and every function says in
//! its contract what it does to that model. Positions lie on the integer
//! grid, and time is counted in nanoseconds.
//!
//! - [`session_directory`], [`mailbox`], [`mailbox_registry`] and
//!   [`ingestion`] are the parts of the session layer, and [`network`] keeps
//!   them consistent: a client has a session exactly if it has a mailbox.
//! - [`outbound`] is one pass of the outbound dispatcher.
//! - [`state`] is the world and its fixed timestep, and [`game`] handles the
//!   clients' requests.
//! - [`client`] is what a client does with the server's messages.

pub mod vec2;
pub mod endpoint;
pub mod game_objects;
pub mod server_to_client;
pub mod client_to_server;
pub mod array_queue;
pub mod mailbox;
pub mod ingestion;
pub mod session_directory;
pub mod mailbox_registry;
pub mod state;
pub mod outbound;
pub mod network;
pub mod game;
pub mod client;
