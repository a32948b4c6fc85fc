//! A small real-time messaging game server library.
//!
//! Peers exchange framed messages over a byte stream: an authorized peer
//! emits `Content` frames that are fanned out to every other online peer;
//! the first peer to answer with a `Flash` for a given message id wins and
//! the original sender is notified with a `Win` frame. Two read-only admin
//! queries expose a leaderboard and a log of wins.
//!
//! The modules hold the verified core: the framed wire codec, the bounded
//! pending-message pool, the bounded win log, the peer registry, and the
//! per-connection session logic.

pub mod wire;
pub mod protocol;
pub mod store;
pub mod winlog;
pub mod registry;
pub mod session;
pub mod textgen;
