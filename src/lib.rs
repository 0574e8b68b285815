//! Detection of "player joined" events in a game server's console stream,
//! with cooldown-based deduplication and fan-out of the announcement to
//! every subscribed channel.

pub mod classify;
pub mod config;
pub mod presence;
pub mod snitch;
pub mod sql;
