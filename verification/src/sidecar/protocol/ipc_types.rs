//! IPC message types.

use vstd::prelude::*;

verus! {

// Agent → Sidecar commands
/// Send a message to a specific peer.
pub const SEND: &'static str = "send";
/// Broadcast to all peers.
pub const BROADCAST: &'static str = "broadcast";
/// Connect to a peer.
pub const CONNECT: &'static str = "connect";
/// List connected peers.
pub const LIST_PEERS: &'static str = "list_peers";

// Sidecar → Agent events
/// A message received from a peer.
pub const MESSAGE: &'static str = "message";
pub const PEER_CONNECTED: &'static str = "peer_connected";
pub const PEER_DISCONNECTED: &'static str = "peer_disconnected";
/// Answer to `list_peers`.
pub const PEER_LIST: &'static str = "peer_list";

}
