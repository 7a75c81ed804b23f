//! The frame protocol: identities, counters, credit, request state, live feeds
//! and the identity of cartridge binaries.

pub mod binary_signing;
pub mod cartridge_slug;
pub mod credit;
pub mod frame;
pub mod live_feed;
pub mod local_socket;
pub mod request_state;
pub mod stats;
