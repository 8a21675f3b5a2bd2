//! Messages between peers and the rules for exchanging them.

pub mod codec;
pub mod fetch;
pub mod gossip;
pub mod handlers;
pub mod messages;
