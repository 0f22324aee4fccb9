//! Subscription registry and broadcast dispatcher.
//!
//! A registry maps recipients (opaque 64-bit identifiers) to named channels
//! and enforces the naming and uniqueness invariants; a dispatcher aggregates
//! the outcomes of fanning one message out to many independent deliveries.
//! All state and decisions live here; transports, persistence and the actual
//! delivery calls are the embedding application's concern.

pub mod api;
pub mod auth;
pub mod bot;
pub mod channel;
pub mod dispatch;
pub mod order;
pub mod registry;
