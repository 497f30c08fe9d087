//! IPC command handling — what the sidecar does with each JSON-line
//! command of its agent.
//!
//! Agent → sidecar commands:
//!   `send` `{"target_peer": …, "message": {…}}`,
//!   `broadcast` `{"message": {…}}`,
//!   `list_peers` `{}`,
//!   `connect` `{"peer_id": …}` (also `"target_peer_id"`).

use std::sync::Arc;
use vstd::prelude::*;
use crate::sidecar::mesh::MeshManager;
use crate::sidecar::protocol::{IpcMessage, MeshMessage, ipc_types};
use crate::sidecar::webrtc_peer::{peer_list_event, peers_payload};
use crate::text::{str_eq, views};

verus! {

/// What a JSON object holds under one key.
pub enum JsonField {
    /// The key is not there.
    Absent,
    /// A string.
    Text(String),
    /// Any other JSON value.
    Other,
}

/// The string a field holds, or the empty string.
pub open spec fn text_or_empty(f: JsonField) -> Seq<char> {
    match f {
        JsonField::Text(s) => s@,
        _ => Seq::empty(),
    }
}

fn take_text(f: JsonField) -> (r: String)
    ensures
        r@ == text_or_empty(f),
{
    match f {
        JsonField::Text(s) => s,
        _ => String::new(),
    }
}

/// An IPC command from the agent, with the payload fields it may use.
pub struct AgentCommand {
    pub msg_type: String,
    /// `payload.target_peer`.
    pub target_peer: JsonField,
    /// `payload.message`: absent (`None`), not a mesh message
    /// (`Some(None)`), or a mesh message.
    pub message: Option<Option<MeshMessage>>,
    /// `payload.peer_id`.
    pub peer_id: JsonField,
    /// `payload.target_peer_id`.
    pub target_peer_id: JsonField,
}

/// What the sidecar does for a command.
pub enum AgentAction {
    /// Send `message` to `target` over its DataChannel.
    Send { target: String, message: MeshMessage },
    /// Send `message` to every connected peer.
    Broadcast { message: MeshMessage },
    /// Answer the agent with `event`.
    Reply { event: IpcMessage },
    /// Start a WebRTC connection to `target` (as the offerer).
    Connect { target: String },
    /// Already connected to `target`: nothing to do.
    AlreadyConnected { target: String },
    /// `target` is empty or is this sidecar itself.
    InvalidTarget { target: String },
    /// No signaling connection to send an offer through.
    SignalingUnavailable { target: String },
    /// A `send` or `broadcast` without a valid message: nothing to do.
    Nothing,
    /// A command of unknown type.
    Unknown { msg_type: String },
}

/// The peer a `connect` names: `peer_id` when that key is present (the
/// empty string unless it holds a string), else `target_peer_id`.
pub open spec fn connect_target(peer_id: JsonField, target_peer_id: JsonField) -> Seq<char> {
    match peer_id {
        JsonField::Absent => text_or_empty(target_peer_id),
        _ => text_or_empty(peer_id),
    }
}

/// Decides what to do with a command of the agent. `signaling_available`
/// says whether offers can currently be sent to the registry.
pub fn handle_agent_command(cmd: AgentCommand, mesh: &MeshManager, signaling_available: bool) -> (r: AgentAction)
    ensures
        cmd.msg_type@ == ipc_types::SEND@ ==> match cmd.message {
            Some(Some(m)) => r matches AgentAction::Send { target, message } && target@ == text_or_empty(cmd.target_peer)
                && message == m,
            _ => r is Nothing,
        },
        cmd.msg_type@ == ipc_types::BROADCAST@ ==> match cmd.message {
            Some(Some(m)) => r matches AgentAction::Broadcast { message } && message == m,
            _ => r is Nothing,
        },
        cmd.msg_type@ == ipc_types::LIST_PEERS@ ==> (r matches AgentAction::Reply { event } && event.msg_type@ == ipc_types::PEER_LIST@
            && exists|peers: Seq<String>| {
                &&& #[trigger] peers_payload(views(peers)) == event.payload@
                &&& (forall|i: int, j: int| 0 <= i < j < peers.len() ==> peers[i]@ != peers[j]@)
                &&& views(peers).to_set() == mesh.channels().dom()
            }),
        cmd.msg_type@ == ipc_types::CONNECT@ ==> ({
            let t = connect_target(cmd.peer_id, cmd.target_peer_id);
            if t.len() == 0 || t == mesh.local_id() {
                r matches AgentAction::InvalidTarget { target } && target@ == t
            } else if mesh.channels().contains_key(t) {
                r matches AgentAction::AlreadyConnected { target } && target@ == t
            } else if !signaling_available {
                r matches AgentAction::SignalingUnavailable { target } && target@ == t
            } else {
                r matches AgentAction::Connect { target } && target@ == t
            }
        }),
        cmd.msg_type@ != ipc_types::SEND@ && cmd.msg_type@ != ipc_types::BROADCAST@ && cmd.msg_type@ != ipc_types::LIST_PEERS@
            && cmd.msg_type@ != ipc_types::CONNECT@ ==> (r matches AgentAction::Unknown { msg_type } && msg_type@ == cmd.msg_type@),
{
    proof {
        reveal_strlit("send");
        reveal_strlit("broadcast");
        reveal_strlit("list_peers");
        reveal_strlit("connect");
        assert("send"@[0] != "broadcast"@[0]);
        assert("send"@[0] != "list_peers"@[0]);
        assert("send"@[0] != "connect"@[0]);
        assert("broadcast"@[0] != "list_peers"@[0]);
        assert("broadcast"@[0] != "connect"@[0]);
        assert("list_peers"@[0] != "connect"@[0]);
    }
    let t = cmd.msg_type.as_str();
    if str_eq(t, ipc_types::SEND) {
        match cmd.message {
            Some(Some(m)) => AgentAction::Send { target: take_text(cmd.target_peer), message: m },
            _ => AgentAction::Nothing,
        }
    } else if str_eq(t, ipc_types::BROADCAST) {
        match cmd.message {
            Some(Some(m)) => AgentAction::Broadcast { message: m },
            _ => AgentAction::Nothing,
        }
    } else if str_eq(t, ipc_types::LIST_PEERS) {
        let peers = mesh.connected_peers();
        let event = peer_list_event(&peers);
        proof {
            assert forall|k: Seq<char>| views(peers@).to_set().contains(k) == mesh.channels().dom().contains(k) by {
                if views(peers@).to_set().contains(k) {
                    let i = choose|i: int| 0 <= i < views(peers@).len() && views(peers@)[i] == k;
                    assert(peers@[i]@ == k);
                }
                if mesh.channels().dom().contains(k) {
                    let i = choose|i: int| 0 <= i < peers@.len() && #[trigger] peers@[i]@ == k;
                    assert(views(peers@)[i] == k);
                }
            }
            assert(views(peers@).to_set() =~= mesh.channels().dom());
            assert(peers_payload(views(peers@)) == event.payload@);
        }
        AgentAction::Reply { event }
    } else if str_eq(t, ipc_types::CONNECT) {
        let target = match cmd.peer_id {
            JsonField::Absent => take_text(cmd.target_peer_id),
            other => take_text(other),
        };
        if target.as_str().is_empty() || str_eq(target.as_str(), mesh.local_peer()) {
            AgentAction::InvalidTarget { target }
        } else if mesh.is_connected(target.as_str()) {
            AgentAction::AlreadyConnected { target }
        } else if !signaling_available {
            AgentAction::SignalingUnavailable { target }
        } else {
            AgentAction::Connect { target }
        }
    } else {
        AgentAction::Unknown { msg_type: cmd.msg_type }
    }
}

}
