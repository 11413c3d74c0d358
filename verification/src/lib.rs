//! A bounded, merging buffer for keyed sensor readings with
//! acknowledgment-driven delivery.
//!
//! Readings are kept in arrival order; when a sensor type has as many
//! outstanding readings as its limit allows, its two oldest entries are
//! folded into one weighted average. A reading leaves the buffer only once
//! the transport has confirmed it.

pub mod buffer;
pub mod client;
pub mod model;
pub mod overflow;
pub mod sensor;
pub mod server;
pub mod store;
pub mod text;
pub mod types;
