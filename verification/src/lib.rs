//! Relay-style cursor pagination over entities with a monotonically increasing
//! integer key: an opaque cursor codec, a range-query planner, an in-memory
//! store, and a connection assembler with exact page information.

pub mod cursor;
pub mod error;
pub mod request;
pub mod store;
pub mod connection;
pub mod laws;
pub mod schema;
pub mod playground;
