//! The registry: signaling relay, agent registry and hub API.

pub mod auth;
pub mod hub;
pub mod registry;
pub mod signaling;
pub mod topology;
