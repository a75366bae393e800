//! An in-memory key-value store with lazy time-to-live expiry, and the
//! line-based text protocol that drives it.

pub mod clock;
pub mod database;
pub mod laws;
pub mod response;
pub mod server;
pub mod text;
