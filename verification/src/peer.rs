//! Peer sessions and the protocol that they speak.

pub mod codec;
pub mod error;
pub mod laws;
pub mod pipeline;
pub mod seed_session;
pub mod session;
pub mod status;
