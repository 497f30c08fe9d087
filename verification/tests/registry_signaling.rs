use chatixia_mesh::registry::signaling::{Delivery, SignalingMessage, SignalingOutcome, SignalingState};
use tokio::sync::mpsc;

fn make_msg(msg_type: &str, peer_id: &str, target_id: Option<&str>) -> SignalingMessage {
    SignalingMessage {
        msg_type: msg_type.to_string(),
        peer_id: peer_id.to_string(),
        target_id: target_id.map(String::from),
        payload: "{}".to_string(),
    }
}

#[test]
fn test_add_and_remove_peer() {
    let mut state = SignalingState::new();
    let (tx, _rx) = mpsc::unbounded_channel();
    state.add_peer("p1", tx);
    assert_eq!(state.connected_peers().len(), 1);
    state.remove_peer("p1");
    assert!(state.connected_peers().is_empty());
}

#[test]
fn test_connected_peers() {
    let mut state = SignalingState::new();
    let (tx1, _rx1) = mpsc::unbounded_channel();
    let (tx2, _rx2) = mpsc::unbounded_channel();
    state.add_peer("p1", tx1);
    state.add_peer("p2", tx2);
    let mut peers = state.connected_peers();
    peers.sort();
    assert_eq!(peers, vec!["p1", "p2"]);
}

#[test]
fn test_handle_register_authorized() {
    let mut state = SignalingState::new();
    let (tx1, mut rx1) = mpsc::unbounded_channel();
    let (tx2, _rx2) = mpsc::unbounded_channel();
    state.add_peer("p1", tx1);
    state.add_peer("p2", tx2);

    let approved: Vec<String> = ["p1", "p2"].iter().map(|s| s.to_string()).collect();
    let legacy: Vec<String> = Vec::new();

    state.handle_message(make_msg("register", "p1", None), &approved, &legacy).deliver();

    let response = rx1.try_recv().unwrap();
    let parsed: serde_json::Value = serde_json::from_str(&response).unwrap();
    assert_eq!(parsed["type"], "peer_list");
    let peers = parsed["payload"]["peers"].as_array().unwrap();
    assert_eq!(peers.len(), 1);
    assert_eq!(peers[0], "p2");
}

#[test]
fn test_handle_register_unauthorized() {
    let mut state = SignalingState::new();
    let (tx1, mut rx1) = mpsc::unbounded_channel();
    state.add_peer("p1", tx1);

    let approved: Vec<String> = Vec::new();
    let legacy: Vec<String> = Vec::new();

    state.handle_message(make_msg("register", "p1", None), &approved, &legacy).deliver();

    let response = rx1.try_recv().unwrap();
    let parsed: serde_json::Value = serde_json::from_str(&response).unwrap();
    let peers = parsed["payload"]["peers"].as_array().unwrap();
    assert!(peers.is_empty());
}

#[test]
fn test_handle_offer_relayed() {
    let mut state = SignalingState::new();
    let (tx1, mut rx1) = mpsc::unbounded_channel();
    let (tx2, mut rx2) = mpsc::unbounded_channel();
    state.add_peer("p1", tx1);
    state.add_peer("p2", tx2);

    state.handle_message(make_msg("offer", "p1", Some("p2")), &[], &[]).deliver();

    let relayed = rx2.try_recv().unwrap();
    let parsed: serde_json::Value = serde_json::from_str(&relayed).unwrap();
    assert_eq!(parsed["type"], "offer");
    assert_eq!(parsed["peer_id"], "p1");
    assert!(rx1.try_recv().is_err());
}

#[test]
fn test_handle_offer_missing_target() {
    let mut state = SignalingState::new();
    let (tx, _rx) = mpsc::unbounded_channel();
    state.add_peer("p1", tx);
    let out = state.handle_message(make_msg("offer", "p1", None), &[], &[]);
    assert!(matches!(out, SignalingOutcome::MissingTarget));
    assert!(out.deliver().is_none());
}

#[test]
fn test_handle_offer_unknown_target() {
    let mut state = SignalingState::new();
    let (tx, _rx) = mpsc::unbounded_channel();
    state.add_peer("p1", tx);
    let out = state.handle_message(make_msg("offer", "p1", Some("ghost")), &[], &[]);
    assert!(matches!(out, SignalingOutcome::Relayed { to: None, .. }));
    assert!(matches!(out.deliver(), Some(Delivery::NotConnected)));
}

#[test]
fn test_handle_heartbeat() {
    let state = SignalingState::new();
    let out = state.handle_message(make_msg("heartbeat", "p1", None), &[], &[]);
    assert!(matches!(out, SignalingOutcome::KeepAlive));
    assert!(out.deliver().is_none());
}

#[test]
fn test_handle_unknown_type() {
    let state = SignalingState::new();
    let out = state.handle_message(make_msg("foobar", "p1", None), &[], &[]);
    assert!(matches!(out, SignalingOutcome::UnknownType));
    assert!(out.deliver().is_none());
}

#[test]
fn legacy_peers_see_each_other_but_not_strangers() {
    let mut state = SignalingState::new();
    let mut receivers = Vec::new();
    for p in ["a", "b", "stranger"] {
        let (tx, rx) = mpsc::unbounded_channel();
        state.add_peer(p, tx);
        receivers.push(rx);
    }
    let legacy = vec!["a".to_string(), "b".to_string()];
    let out = state.handle_message(make_msg("register", "a", None), &[], &legacy);
    match &out {
        SignalingOutcome::PeerList { peers, message, to } => {
            assert_eq!(peers, &vec!["b".to_string()]);
            assert_eq!(message, r#"{"payload":{"peers":["b"]},"peer_id":"registry","type":"peer_list"}"#);
            assert!(to.is_some());
        }
        _ => panic!("expected a peer list"),
    }
    assert!(matches!(out.deliver(), Some(Delivery::Sent)));
    assert_eq!(
        receivers[0].try_recv().unwrap(),
        r#"{"payload":{"peers":["b"]},"peer_id":"registry","type":"peer_list"}"#
    );
    assert!(receivers[1].try_recv().is_err());
    assert!(receivers[2].try_recv().is_err());
}

#[test]
fn relayed_message_is_reserialized() {
    let mut state = SignalingState::new();
    let (tx, mut rx) = mpsc::unbounded_channel();
    state.add_peer("p2", tx);
    let mut msg = make_msg("ice_candidate", "p1", Some("p2"));
    msg.payload = r#"{"candidate":"c"}"#.into();
    state.handle_message(msg, &[], &[]).deliver();
    assert_eq!(
        rx.try_recv().unwrap(),
        r#"{"type":"ice_candidate","peer_id":"p1","target_id":"p2","payload":{"candidate":"c"}}"#
    );
}

#[test]
fn closed_receiver_is_reported() {
    let mut state = SignalingState::new();
    let (tx, rx) = mpsc::unbounded_channel::<String>();
    state.add_peer("p2", tx);
    drop(rx);
    let out = state.handle_message(make_msg("answer", "p1", Some("p2")), &[], &[]);
    assert!(matches!(out.deliver(), Some(Delivery::ChannelClosed)));
}

#[test]
fn spoofed_sender_is_dropped() {
    let state = SignalingState::new();
    assert!(state.handle_from("p1", make_msg("heartbeat", "p2", None), &[], &[]).is_none());
    assert!(matches!(
        state.handle_from("p1", make_msg("heartbeat", "p1", None), &[], &[]),
        Some(SignalingOutcome::KeepAlive)
    ));
}
