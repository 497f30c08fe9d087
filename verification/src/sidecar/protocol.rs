//! Protocol types for signaling, DataChannel and IPC, and their JSON framing.
//!
//! A `payload` is carried as the JSON text of the payload value (`null` when
//! the message has none); the framing functions embed it unchanged.

pub mod ipc_types;
pub mod mesh_types;

use vstd::prelude::*;
use crate::text::{json_string, push_json_string, push_str};

verus! {

// ─── Signaling (WebSocket to registry) ───────────────────────────────────

/// Signaling message exchanged over WebSocket.
pub struct SignalingMessage {
    pub msg_type: String,
    pub peer_id: String,
    pub target_id: Option<String>,
    /// JSON text of the payload value.
    pub payload: String,
}

pub struct SignalingMessageView {
    pub msg_type: Seq<char>,
    pub peer_id: Seq<char>,
    pub target_id: Option<Seq<char>>,
    pub payload: Seq<char>,
}

pub open spec fn opt_view(o: Option<String>) -> Option<Seq<char>> {
    match o {
        Some(s) => Some(s@),
        None => None,
    }
}

impl View for SignalingMessage {
    type V = SignalingMessageView;

    open spec fn view(&self) -> SignalingMessageView {
        SignalingMessageView {
            msg_type: self.msg_type@,
            peer_id: self.peer_id@,
            target_id: opt_view(self.target_id),
            payload: self.payload@,
        }
    }
}

/// The JSON object of a signaling message, fields in declaration order; the
/// target is left out when there is none.
pub open spec fn signaling_json(m: SignalingMessageView) -> Seq<char> {
    "{\"type\":"@ + json_string(m.msg_type) + ",\"peer_id\":"@ + json_string(m.peer_id)
        + match m.target_id {
        Some(t) => ",\"target_id\":"@ + json_string(t),
        None => Seq::<char>::empty(),
    } + ",\"payload\":"@ + m.payload + "}"@
}

impl SignalingMessage {
    /// Serializes the message as one JSON object.
    pub fn to_json(&self) -> (r: String)
        ensures
            r@ == signaling_json(self@),
    {
        let mut out = String::new();
        push_str(&mut out, "{\"type\":");
        push_json_string(&mut out, self.msg_type.as_str());
        push_str(&mut out, ",\"peer_id\":");
        push_json_string(&mut out, self.peer_id.as_str());
        let ghost mid = out@;
        match &self.target_id {
            Some(t) => {
                push_str(&mut out, ",\"target_id\":");
                push_json_string(&mut out, t.as_str());
            },
            None => {},
        }
        let ghost after = out@;
        push_str(&mut out, ",\"payload\":");
        push_str(&mut out, self.payload.as_str());
        push_str(&mut out, "}");
        proof {
            let tail = match self@.target_id {
                Some(t) => ",\"target_id\":"@ + json_string(t),
                None => Seq::<char>::empty(),
            };
            assert(after =~= mid + tail);
        }
        assert(out@ =~= signaling_json(self@));
        out
    }
}

// ─── DataChannel (WebRTC, agent-to-agent) ────────────────────────────────

/// Application-level message exchanged over DataChannel.
pub struct MeshMessage {
    pub msg_type: String,
    pub request_id: String,
    pub source_agent: String,
    pub target_agent: String,
    /// JSON text of the payload value.
    pub payload: String,
}

pub struct MeshMessageView {
    pub msg_type: Seq<char>,
    pub request_id: Seq<char>,
    pub source_agent: Seq<char>,
    pub target_agent: Seq<char>,
    pub payload: Seq<char>,
}

impl View for MeshMessage {
    type V = MeshMessageView;

    open spec fn view(&self) -> MeshMessageView {
        MeshMessageView {
            msg_type: self.msg_type@,
            request_id: self.request_id@,
            source_agent: self.source_agent@,
            target_agent: self.target_agent@,
            payload: self.payload@,
        }
    }
}

/// The JSON object of a mesh message, fields in declaration order (how it
/// goes over a DataChannel).
pub open spec fn mesh_json(m: MeshMessageView) -> Seq<char> {
    "{\"type\":"@ + json_string(m.msg_type) + ",\"request_id\":"@ + json_string(m.request_id)
        + ",\"source_agent\":"@ + json_string(m.source_agent) + ",\"target_agent\":"@
        + json_string(m.target_agent) + ",\"payload\":"@ + m.payload + "}"@
}

/// The JSON object of a mesh message with its keys in sorted order (how it
/// appears nested inside an IPC event payload).
pub open spec fn mesh_json_sorted(m: MeshMessageView) -> Seq<char> {
    "{\"payload\":"@ + m.payload + ",\"request_id\":"@ + json_string(m.request_id)
        + ",\"source_agent\":"@ + json_string(m.source_agent) + ",\"target_agent\":"@
        + json_string(m.target_agent) + ",\"type\":"@ + json_string(m.msg_type) + "}"@
}

impl MeshMessage {
    /// Serializes the message as one JSON object, fields in declaration order.
    pub fn to_json(&self) -> (r: String)
        ensures
            r@ == mesh_json(self@),
    {
        let mut out = String::new();
        push_str(&mut out, "{\"type\":");
        push_json_string(&mut out, self.msg_type.as_str());
        push_str(&mut out, ",\"request_id\":");
        push_json_string(&mut out, self.request_id.as_str());
        push_str(&mut out, ",\"source_agent\":");
        push_json_string(&mut out, self.source_agent.as_str());
        push_str(&mut out, ",\"target_agent\":");
        push_json_string(&mut out, self.target_agent.as_str());
        push_str(&mut out, ",\"payload\":");
        push_str(&mut out, self.payload.as_str());
        push_str(&mut out, "}");
        assert(out@ =~= mesh_json(self@));
        out
    }

    /// Serializes the message as one JSON object with sorted keys.
    pub fn to_sorted_json(&self) -> (r: String)
        ensures
            r@ == mesh_json_sorted(self@),
    {
        let mut out = String::new();
        push_str(&mut out, "{\"payload\":");
        push_str(&mut out, self.payload.as_str());
        push_str(&mut out, ",\"request_id\":");
        push_json_string(&mut out, self.request_id.as_str());
        push_str(&mut out, ",\"source_agent\":");
        push_json_string(&mut out, self.source_agent.as_str());
        push_str(&mut out, ",\"target_agent\":");
        push_json_string(&mut out, self.target_agent.as_str());
        push_str(&mut out, ",\"type\":");
        push_json_string(&mut out, self.msg_type.as_str());
        push_str(&mut out, "}");
        assert(out@ =~= mesh_json_sorted(self@));
        out
    }
}

// ─── IPC (Unix socket, sidecar ↔ agent) ─────────────────────────────────

/// IPC message between sidecar and agent (JSON-line protocol).
pub struct IpcMessage {
    pub msg_type: String,
    /// JSON text of the payload value.
    pub payload: String,
}

pub struct IpcMessageView {
    pub msg_type: Seq<char>,
    pub payload: Seq<char>,
}

impl View for IpcMessage {
    type V = IpcMessageView;

    open spec fn view(&self) -> IpcMessageView {
        IpcMessageView { msg_type: self.msg_type@, payload: self.payload@ }
    }
}

/// The JSON object of an IPC message.
pub open spec fn ipc_json(m: IpcMessageView) -> Seq<char> {
    "{\"type\":"@ + json_string(m.msg_type) + ",\"payload\":"@ + m.payload + "}"@
}

impl IpcMessage {
    /// Serializes the message as one JSON object.
    pub fn to_json(&self) -> (r: String)
        ensures
            r@ == ipc_json(self@),
    {
        let mut out = String::new();
        push_str(&mut out, "{\"type\":");
        push_json_string(&mut out, self.msg_type.as_str());
        push_str(&mut out, ",\"payload\":");
        push_str(&mut out, self.payload.as_str());
        push_str(&mut out, "}");
        assert(out@ =~= ipc_json(self@));
        out
    }

    /// One line of the IPC stream: the JSON object and a newline.
    pub fn to_json_line(&self) -> (r: String)
        ensures
            r@ == ipc_json(self@).push('\n'),
    {
        let mut out = self.to_json();
        out.push('\n');
        out
    }
}

}
