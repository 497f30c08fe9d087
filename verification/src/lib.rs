//! Verified core of the chatixia agent mesh: the registry's agent table, task
//! queue, authentication and signaling relay, and the sidecar's mesh
//! bookkeeping, command handling and wire formats.

pub mod clock;
pub mod registry;
pub mod shared_map;
pub mod sidecar;
pub mod text;
