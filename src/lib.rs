//! Multiplayer falling-block game: piece and board rules, the message wire
//! format, and the synchronisation hub that keeps a shared roster of players
//! and fans their events out to one another.

mod ambient;
pub mod block;
pub mod board;
pub mod codec;
pub mod game;
pub mod input;
pub mod message;
pub mod server;
pub mod session;
