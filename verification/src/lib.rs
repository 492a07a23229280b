//! Drafft.ink collaboration core: share links, deploy configuration, the relay
//! protocol, room storage rules and the per-connection state machines.

pub mod text;
pub mod table;
pub mod share_url;
pub mod collab_config;
pub mod protocol;
pub mod sync;
pub mod server;
