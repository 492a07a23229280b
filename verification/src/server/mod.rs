//! The relay server's logic: configuration, room storage rules, room
//! membership and the per-connection session.

pub mod config;
pub mod store;
pub mod rooms;
pub mod session;
