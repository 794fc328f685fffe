//! A minimal device-registry core: battery-powered units register themselves
//! by MAC address, ping to advance a last-seen timestamp, and push
//! configuration key/value updates into an append-only per-device history.
//!
//! The library models the registry as an in-memory store of device records
//! keyed by fixed-length hex identifiers, with verified contracts for the
//! three state-mutating operations (`register`, `ping`, `push_config`).

pub mod device_id;
pub mod errors;
pub mod json;
pub mod laws;
pub mod store;

pub use device_id::DeviceId;
pub use errors::ApiError;
pub use json::JsonValue;
pub use store::{Store, MAC};
