//! The host side of a bridge to a pool of script-runtime workers: framing of
//! requests and responses, correlation of responses with their waiters,
//! round-robin and broadcast dispatch over the workers, and teardown.
pub mod bootstrap;
pub mod channel;
pub mod error;
pub mod farm;
pub mod frame;
pub mod laws;
pub mod plugin;
