//! Offline-first synchronization core and local realtime entry service for
//! per-device academic records.
//!
//! The library models the entity store (rows with sync metadata, deletion
//! tombstones), the change-capture rules, the pull/push reconciliation cycle,
//! and the decisions of the LAN realtime service. All state transitions are
//! verified; durable storage and the network live outside the library.

pub mod auth;
pub mod broadcast;
pub mod license;
pub mod model;
pub mod routing;
pub mod service;
pub mod store;
pub mod sync;
pub mod time;
