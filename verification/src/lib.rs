//! Core of a two-player networked battleship game.
//!
//! The crate is split along the game's natural seams: [`logic`] holds the
//! board, fleet and targeting rules, [`prot`] the binary wire codec shared by
//! both sides, [`server`] the per-connection command translation and the match
//! coordinator's state machine, and [`client`] the player-side state machine
//! that mirrors the protocol.  All I/O stays outside: callers move bytes and
//! channel values, the crate decides what they mean.

pub mod logic;
pub mod prot;
pub mod server;
pub mod client;
