//! WebRTC peer wiring: ICE server configuration, connection-state rules,
//! and the signaling and IPC messages that peer connections produce.

use std::sync::Arc;
use vstd::prelude::*;
use crate::registry::auth::generate_turn_credentials;
use crate::sidecar::protocol::{IpcMessage, MeshMessage, SignalingMessage, ipc_types, mesh_json_sorted};
use crate::text::{decimal, json_string, json_string_array, push_decimal, push_json_string,
    push_json_string_array, push_str, str_eq, views};

verus! {

/// An ICE server entry (what `webrtc`'s `RTCIceServer` holds).
pub struct IceServer {
    pub urls: Vec<String>,
    pub username: String,
    pub credential: String,
}

/// The public STUN server.
pub open spec fn stun_url() -> Seq<char> {
    "stun:stun.l.google.com:19302"@
}

/// The ICE servers: the public STUN server and, when a TURN url is set, a
/// TURN server whose credentials are ephemeral ones derived from the TURN
/// secret when there is one (see `generate_turn_credentials`), and the
/// static user name and password (empty when unset) otherwise.
pub fn ice_servers_from(
    turn_url: Option<String>,
    turn_secret: Option<String>,
    turn_username: Option<String>,
    turn_password: Option<String>,
) -> (r: Vec<IceServer>)
    ensures
        r@.len() == if turn_url is Some { 2int } else { 1int },
        views(r@[0].urls@) == seq![stun_url()],
        r@[0].username@.len() == 0,
        r@[0].credential@.len() == 0,
        turn_url is Some ==> {
            &&& views(r@[1].urls@) == seq![turn_url->0@]
            &&& match turn_secret {
                Some(secret) => {
                    &&& (exists|now: u64| crate::clock::read_from_secs_clock(now) && #[trigger] crate::registry::auth::turn_username(
                        crate::registry::auth::expiry_after(now, 86400)) == r@[1].username@)
                    &&& r@[1].credential@ == crate::registry::auth::turn_password(secret@, r@[1].username@)
                },
                None => {
                    &&& r@[1].username@ == match turn_username { Some(u) => u@, None => Seq::<char>::empty() }
                    &&& r@[1].credential@ == match turn_password { Some(p) => p@, None => Seq::<char>::empty() }
                },
            }
        },
{
    let mut urls: Vec<String> = Vec::new();
    urls.push("stun:stun.l.google.com:19302".to_owned());
    let mut servers: Vec<IceServer> = Vec::new();
    servers.push(IceServer { urls, username: String::new(), credential: String::new() });
    if let Some(url) = turn_url {
        let (username, credential) = match turn_secret {
            Some(secret) => generate_turn_credentials(secret.as_str(), 86400),
            None => (
                match turn_username {
                    Some(u) => u,
                    None => String::new(),
                },
                match turn_password {
                    Some(p) => p,
                    None => String::new(),
                },
            ),
        };
        let mut turn_urls: Vec<String> = Vec::new();
        turn_urls.push(url);
        servers.push(IceServer { urls: turn_urls, username, credential });
    }
    servers
}

/// `str::to_lowercase`: the Unicode lower-case form.
pub uninterp spec fn unicode_lowercase(s: Seq<char>) -> Seq<char>;

/// `str::to_lowercase`.
#[verifier::external_body]
fn to_lowercase(s: &str) -> (r: String)
    ensures
        r@ == unicode_lowercase(s@),
{
    s.to_lowercase()
}

/// Whether an `ICE_TRANSPORT_POLICY` setting forces relay-only transport:
/// its lower-case form is `relay`.
pub fn relay_only(policy: &str) -> (r: bool)
    ensures
        r == (unicode_lowercase(policy@) == "relay"@),
{
    let lower = to_lowercase(policy);
    str_eq(lower.as_str(), "relay")
}

/// The states of a peer connection (as `webrtc` names them).
pub enum PeerConnectionState {
    Unspecified,
    New,
    Connecting,
    Connected,
    Disconnected,
    Failed,
    Closed,
}

/// A peer is dropped from the mesh once its connection has failed,
/// disconnected or closed.
pub fn drops_peer(state: PeerConnectionState) -> (r: bool)
    ensures
        r == (state is Failed || state is Disconnected || state is Closed),
{
    match state {
        PeerConnectionState::Failed | PeerConnectionState::Disconnected | PeerConnectionState::Closed => true,
        _ => false,
    }
}

/// The payload `{"peer_id": …}`.
pub open spec fn peer_id_payload(peer_id: Seq<char>) -> Seq<char> {
    "{\"peer_id\":"@ + json_string(peer_id) + "}"@
}

/// A `peer_connected` or `peer_disconnected` event for the agent.
pub fn peer_event(connected: bool, peer_id: &str) -> (r: IpcMessage)
    ensures
        r.msg_type@ == if connected { ipc_types::PEER_CONNECTED@ } else { ipc_types::PEER_DISCONNECTED@ },
        r.payload@ == peer_id_payload(peer_id@),
{
    let mut payload = String::new();
    push_str(&mut payload, "{\"peer_id\":");
    push_json_string(&mut payload, peer_id);
    push_str(&mut payload, "}");
    assert(payload@ =~= peer_id_payload(peer_id@));
    let msg_type = if connected { ipc_types::PEER_CONNECTED.to_owned() } else { ipc_types::PEER_DISCONNECTED.to_owned() };
    IpcMessage { msg_type, payload }
}

/// The payload of a `message` event: the sending peer and the message.
pub open spec fn message_payload(from_peer: Seq<char>, msg: crate::sidecar::protocol::MeshMessageView) -> Seq<char> {
    "{\"from_peer\":"@ + json_string(from_peer) + ",\"message\":"@ + mesh_json_sorted(msg) + "}"@
}

/// A `message` event for the agent: `msg` arrived from `from_peer`.
pub fn message_event(from_peer: &str, msg: &MeshMessage) -> (r: IpcMessage)
    ensures
        r.msg_type@ == ipc_types::MESSAGE@,
        r.payload@ == message_payload(from_peer@, msg@),
{
    let mut payload = String::new();
    push_str(&mut payload, "{\"from_peer\":");
    push_json_string(&mut payload, from_peer);
    push_str(&mut payload, ",\"message\":");
    let m = msg.to_sorted_json();
    push_str(&mut payload, m.as_str());
    push_str(&mut payload, "}");
    assert(payload@ =~= message_payload(from_peer@, msg@));
    IpcMessage { msg_type: ipc_types::MESSAGE.to_owned(), payload }
}

/// The payload `{"peers": […]}`.
pub open spec fn peers_payload(peers: Seq<Seq<char>>) -> Seq<char> {
    "{\"peers\":"@ + json_string_array(peers) + "}"@
}

/// A `peer_list` event for the agent.
pub fn peer_list_event(peers: &Vec<String>) -> (r: IpcMessage)
    ensures
        r.msg_type@ == ipc_types::PEER_LIST@,
        r.payload@ == peers_payload(views(peers@)),
{
    let mut payload = String::new();
    push_str(&mut payload, "{\"peers\":");
    push_json_string_array(&mut payload, peers);
    push_str(&mut payload, "}");
    assert(payload@ =~= peers_payload(views(peers@)));
    IpcMessage { msg_type: ipc_types::PEER_LIST.to_owned(), payload }
}

/// A JSON value that is a string or null.
pub open spec fn json_opt_string(o: Option<Seq<char>>) -> Seq<char> {
    match o {
        Some(s) => json_string(s),
        None => "null"@,
    }
}

/// A JSON value that is a number or null.
pub open spec fn json_opt_number(o: Option<u16>) -> Seq<char> {
    match o {
        Some(n) => decimal(n as nat),
        None => "null"@,
    }
}

/// The payload of an `ice_candidate` message (keys in sorted order).
pub open spec fn candidate_payload(candidate: Seq<char>, sdp_mid: Option<Seq<char>>, sdp_mline_index: Option<u16>) -> Seq<char> {
    "{\"candidate\":"@ + json_string(candidate) + ",\"sdpMLineIndex\":"@ + json_opt_number(sdp_mline_index)
        + ",\"sdpMid\":"@ + json_opt_string(sdp_mid) + "}"@
}

/// The `ice_candidate` message that forwards a local ICE candidate to the
/// remote peer.
pub fn ice_candidate_message(
    local_peer_id: &str,
    remote_peer_id: &str,
    candidate: &str,
    sdp_mid: Option<String>,
    sdp_mline_index: Option<u16>,
) -> (r: SignalingMessage)
    ensures
        r.msg_type@ == "ice_candidate"@,
        r.peer_id@ == local_peer_id@,
        r.target_id is Some && r.target_id->0@ == remote_peer_id@,
        r.payload@ == candidate_payload(candidate@, match sdp_mid { Some(s) => Some(s@), None => None }, sdp_mline_index),
{
    let mut payload = String::new();
    push_str(&mut payload, "{\"candidate\":");
    push_json_string(&mut payload, candidate);
    push_str(&mut payload, ",\"sdpMLineIndex\":");
    let ghost a = payload@;
    match sdp_mline_index {
        Some(n) => push_decimal(&mut payload, n as u64),
        None => push_str(&mut payload, "null"),
    }
    let ghost b = payload@;
    push_str(&mut payload, ",\"sdpMid\":");
    let ghost c = payload@;
    match &sdp_mid {
        Some(s) => push_json_string(&mut payload, s.as_str()),
        None => push_str(&mut payload, "null"),
    }
    let ghost d = payload@;
    push_str(&mut payload, "}");
    proof {
        assert(b =~= a + json_opt_number(sdp_mline_index));
        assert(d =~= c + json_opt_string(match sdp_mid { Some(s) => Some(s@), None => None }));
        assert(payload@ =~= candidate_payload(candidate@, match sdp_mid { Some(s) => Some(s@), None => None }, sdp_mline_index));
    }
    SignalingMessage {
        msg_type: "ice_candidate".to_owned(),
        peer_id: local_peer_id.to_owned(),
        target_id: Some(remote_peer_id.to_owned()),
        payload,
    }
}

/// The payload `{"sdp": …}`.
pub open spec fn sdp_payload(sdp: Seq<char>) -> Seq<char> {
    "{\"sdp\":"@ + json_string(sdp) + "}"@
}

/// The `offer` (or, when `is_offer` is false, `answer`) message that
/// carries a session description to the remote peer.
pub fn session_message(is_offer: bool, local_peer_id: &str, remote_peer_id: &str, sdp: &str) -> (r: SignalingMessage)
    ensures
        r.msg_type@ == if is_offer { "offer"@ } else { "answer"@ },
        r.peer_id@ == local_peer_id@,
        r.target_id is Some && r.target_id->0@ == remote_peer_id@,
        r.payload@ == sdp_payload(sdp@),
{
    let mut payload = String::new();
    push_str(&mut payload, "{\"sdp\":");
    push_json_string(&mut payload, sdp);
    push_str(&mut payload, "}");
    assert(payload@ =~= sdp_payload(sdp@));
    SignalingMessage {
        msg_type: if is_offer { "offer".to_owned() } else { "answer".to_owned() },
        peer_id: local_peer_id.to_owned(),
        target_id: Some(remote_peer_id.to_owned()),
        payload,
    }
}

}
