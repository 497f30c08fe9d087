//! The sidecar: a WebRTC mesh peer that bridges its DataChannels to a local
//! agent over a JSON-lines IPC socket.

pub mod ipc;
pub mod mesh;
pub mod protocol;
pub mod signaling;
pub mod webrtc_peer;
