//! Session coordination for a turn-based multiplayer board game.
//!
//! The crate holds the connection and session registries of a game server,
//! the state machine that one connection runs through, and the board game
//! that each session carries. Every function is verified against the
//! contract written above its body.

pub mod text;
mod random;
pub mod registry;
pub mod session;
pub mod messages;
pub mod ws;
pub mod game;
pub mod laws;
