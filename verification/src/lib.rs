//! Peer-quality and network-health tracking for a mixnet node.
//!
//! Qualities and backoffs are fixed-point numbers counted in thousandths,
//! timestamps and delays are milliseconds.
pub mod actions;
pub mod clock;
pub mod config;
pub mod fixed;
pub mod health;
pub mod keyed;
pub mod laws;
pub mod model;
pub mod network;
pub mod origin;
pub mod peer;
pub mod status;
pub mod text;
