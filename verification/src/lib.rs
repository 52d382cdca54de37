//! Capability-based access control for an actor-style messaging runtime.
//!
//! The crate provides unforgeable capability tokens, a per-actor ledger of
//! capabilities issued and received, pluggable access-control gates, and the
//! fail-closed dispatch step that interposes on message delivery.

pub mod address;
pub mod capability;
pub mod codec;
pub mod delegation;
pub mod dispatch;
pub mod gate;
pub mod ledger;
