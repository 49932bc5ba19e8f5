//! Authoritative core of a turn-based, grid-based multiplayer combat game.
//!
//! - `protocol`: cells, players, the world and the messages, with the binary encoding
//!   of messages in `protocol::serialization`.
//! - `game`: the simulation engine, which validates and applies every action.
//! - `handler`: the rules that turn a message from a connection into an engine call
//!   and a reply.
//! - `framing`: length-prefixed frames.
//! - `session`: the life of one connection as a state machine.
//!
//! Every function carries a contract that Verus proves. Sockets, tasks and the lock
//! around the engine are left to the program that uses the library.

pub mod framing;
pub mod game;
pub mod handler;
pub mod protocol;
pub mod session;
