//! A small guessing-game server core: the per-connection game engine, the
//! decoder for client input, the session registry and the protocol adapter
//! that turns transport events into outbound frames.

pub mod config;
pub mod guessing_game;
pub mod layout;
pub mod protocol;
pub mod session;
pub mod text;
pub mod utils;
