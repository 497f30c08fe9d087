use base64::Engine;
use chatixia_mesh::registry::auth::generate_turn_credentials;
use chatixia_mesh::sidecar::protocol::{ipc_types, MeshMessage};
use chatixia_mesh::sidecar::webrtc_peer::{
    drops_peer, ice_candidate_message, ice_servers_from, message_event, peer_event, relay_only,
    session_message, PeerConnectionState,
};

fn now_secs() -> u64 {
    std::time::SystemTime::now().duration_since(std::time::UNIX_EPOCH).unwrap().as_secs()
}

#[test]
fn test_generate_turn_credentials_format() {
    let (username, password) = generate_turn_credentials("test-secret", 86400);
    assert!(username.ends_with(":mesh"), "username should end with ':mesh'");
    let expiry_str = username.split(':').next().unwrap();
    let expiry: u64 = expiry_str.parse().expect("expiry should be a number");
    let now = now_secs();
    assert!(expiry > now + 86300);
    assert!(expiry < now + 86500);
    assert!(!password.is_empty());
    base64::engine::general_purpose::STANDARD.decode(&password).expect("password should be valid base64");
}

#[test]
fn test_generate_turn_credentials_different_secrets_differ() {
    let (_, pass1) = generate_turn_credentials("secret-1", 86400);
    let (_, pass2) = generate_turn_credentials("secret-2", 86400);
    assert_ne!(pass1, pass2, "different secrets should produce different passwords");
}

#[test]
fn test_generate_turn_credentials_deterministic_for_same_input() {
    let (u1, p1) = generate_turn_credentials("fixed-secret", 86400);
    let (u2, p2) = generate_turn_credentials("fixed-secret", 86400);
    if u1 == u2 {
        assert_eq!(p1, p2);
    }
    let (u3, p3) = chatixia_mesh::registry::auth::turn_credentials_for("fixed-secret", 1_800_000_000);
    let (u4, p4) = chatixia_mesh::registry::auth::turn_credentials_for("fixed-secret", 1_800_000_000);
    assert_eq!(u3, u4);
    assert_eq!(p3, p4);
}

#[test]
fn test_generate_turn_credentials_short_ttl() {
    let (username, _) = generate_turn_credentials("s", 60);
    let expiry_str = username.split(':').next().unwrap();
    let expiry: u64 = expiry_str.parse().unwrap();
    let now = now_secs();
    assert!(expiry >= now + 59);
    assert!(expiry <= now + 61);
}

#[test]
fn ice_servers_default_is_stun_only() {
    let servers = ice_servers_from(None, Some("ignored".into()), None, None);
    assert_eq!(servers.len(), 1, "should have only STUN when no TURN configured");
    assert!(servers[0].urls[0].starts_with("stun:"));
}

#[test]
fn ice_servers_with_turn_secret() {
    let servers = ice_servers_from(Some("turn:my-turn.example.com:3478".into()), Some("my-shared-secret".into()), None, None);
    assert_eq!(servers.len(), 2, "should have STUN + TURN");
    assert_eq!(servers[1].urls[0], "turn:my-turn.example.com:3478");
    assert!(servers[1].username.ends_with(":mesh"));
    assert!(!servers[1].credential.is_empty());
}

#[test]
fn ice_servers_with_static_credentials() {
    let servers = ice_servers_from(Some("turn:turn.local:3478".into()), None, Some("user1".into()), Some("pass1".into()));
    assert_eq!(servers.len(), 2);
    assert_eq!(servers[1].username, "user1");
    assert_eq!(servers[1].credential, "pass1");
    let bare = ice_servers_from(Some("turn:turn.local:3478".into()), None, None, None);
    assert_eq!(bare[1].username, "");
    assert_eq!(bare[1].credential, "");
}

#[test]
fn relay_policy_is_case_insensitive() {
    assert!(relay_only("relay"));
    assert!(relay_only("RELAY"));
    assert!(relay_only("Relay"));
    assert!(!relay_only("all"));
    assert!(!relay_only(""));
    assert!(!relay_only("relay "));
}

#[test]
fn failed_disconnected_closed_drop_the_peer() {
    assert!(drops_peer(PeerConnectionState::Failed));
    assert!(drops_peer(PeerConnectionState::Disconnected));
    assert!(drops_peer(PeerConnectionState::Closed));
    assert!(!drops_peer(PeerConnectionState::Connected));
    assert!(!drops_peer(PeerConnectionState::Connecting));
    assert!(!drops_peer(PeerConnectionState::New));
    assert!(!drops_peer(PeerConnectionState::Unspecified));
}

#[test]
fn events_for_the_agent() {
    let up = peer_event(true, "p1");
    assert_eq!(up.msg_type, ipc_types::PEER_CONNECTED);
    assert_eq!(up.to_json(), r#"{"type":"peer_connected","payload":{"peer_id":"p1"}}"#);
    let down = peer_event(false, "p1");
    assert_eq!(down.msg_type, ipc_types::PEER_DISCONNECTED);
    let msg = MeshMessage {
        msg_type: "agent_prompt".into(),
        request_id: "r".into(),
        source_agent: "a".into(),
        target_agent: "b".into(),
        payload: r#"{"text":"hi"}"#.into(),
    };
    let ev = message_event("p9", &msg);
    assert_eq!(
        ev.payload,
        r#"{"from_peer":"p9","message":{"payload":{"text":"hi"},"request_id":"r","source_agent":"a","target_agent":"b","type":"agent_prompt"}}"#
    );
}

#[test]
fn candidate_and_session_messages() {
    let c = ice_candidate_message("me", "you", "candidate:1", Some("0".into()), Some(0));
    assert_eq!(
        c.to_json(),
        r#"{"type":"ice_candidate","peer_id":"me","target_id":"you","payload":{"candidate":"candidate:1","sdpMLineIndex":0,"sdpMid":"0"}}"#
    );
    let c2 = ice_candidate_message("me", "you", "x", None, None);
    assert_eq!(c2.payload, r#"{"candidate":"x","sdpMLineIndex":null,"sdpMid":null}"#);
    let o = session_message(true, "me", "you", "v=0\r\n");
    assert_eq!(o.msg_type, "offer");
    assert_eq!(o.payload, "{\"sdp\":\"v=0\\r\\n\"}");
    assert_eq!(session_message(false, "me", "you", "").msg_type, "answer");
}
