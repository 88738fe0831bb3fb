//! Session and room coordination for a many-room multiplayer game server.
//!
//! Every actor of the server is a state machine: it takes one event, changes its
//! own state and hands back the effects that a runtime has to carry out. The
//! library reads no socket, starts no process and sends no message itself.
//!
//! - `registry` and `coordinator`: the table of sessions and the directory of
//!   rooms, as a model and as the code that keeps them;
//! - `room` and `game_room`: the members of one room, the protocol by which
//!   the state of its game reaches them, and the rules of the game;
//! - `client`: the session of one connection;
//! - `system`: the coordinator, the rooms and the sessions taken together, and
//!   what holds of the whole;
//! - `message` and `delta`: what travels between a client and the server;
//! - `state` and `command`: the program of a player.

pub mod client;
pub mod command;
pub mod coordinator;
pub mod delta;
pub mod game_room;
pub mod message;
pub mod registry;
pub mod room;
pub mod state;
pub mod system;
