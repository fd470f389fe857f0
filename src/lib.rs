//! A chat relay: fixed-size zero-padded frames carrying JSON records, a
//! registry of live connections, and the decisions of the server's loops.
pub mod codec;
pub mod record;
pub mod registry;
pub mod server;
pub mod util;
