use chatixia_mesh::sidecar::ipc::JsonField;
use chatixia_mesh::sidecar::mesh::MeshManager;
use chatixia_mesh::sidecar::signaling::{
    handle_signaling_message, register_message, signaling_ws_url, IncomingSignal, ReconnectPolicy, SignalAction,
    TokenResponse,
};

fn incoming(t: &str, from: &str) -> IncomingSignal {
    IncomingSignal {
        msg_type: t.into(),
        peer_id: from.into(),
        peers: None,
        sdp: JsonField::Absent,
        candidate: JsonField::Absent,
        sdp_mid: JsonField::Absent,
        sdp_mline_index: None,
    }
}

#[test]
fn backoff_doubles_up_to_thirty_seconds() {
    let mut p = ReconnectPolicy::new();
    assert_eq!(p.after_disconnect(), 0);
    let waits: Vec<u64> = (0..7).map(|_| p.after_disconnect()).collect();
    assert_eq!(waits, vec![1, 2, 4, 8, 16, 30, 30]);
    assert_eq!(p.attempt(), 8);
    let mut q = ReconnectPolicy::new();
    assert_eq!(q.after_auth_failure(), 1);
    assert_eq!(q.after_auth_failure(), 2);
    assert_eq!(q.after_disconnect(), 4);
}

#[test]
fn successful_connection_resets_the_backoff() {
    let mut p = ReconnectPolicy::new();
    assert_eq!(p.after_auth_failure(), 1);
    assert_eq!(p.after_auth_failure(), 2);
    p.after_connected();
    assert_eq!(p.attempt(), 0);
    assert_eq!(p.after_disconnect(), 0);
    assert_eq!(p.after_disconnect(), 1);
    assert_eq!(p.after_auth_failure(), 2);
}

#[test]
fn register_and_url() {
    let r = register_message("peer-1");
    assert_eq!(r.to_json(), r#"{"type":"register","peer_id":"peer-1","payload":null}"#);
    assert_eq!(signaling_ws_url("ws://h/ws", "abc"), "ws://h/ws?token=abc");
    let t = TokenResponse { token: "t".into(), peer_id: "p".into(), role: "agent".into() };
    assert_eq!(t.peer_id, "p");
}

#[test]
fn peer_list_skips_self_connected_and_non_strings() {
    let mesh = MeshManager::new("me".into());
    let mut m = incoming("peer_list", "registry");
    m.peers = Some(vec![Some("me".into()), None, Some("a".into()), Some("b".into())]);
    match handle_signaling_message(m, "me", &mesh) {
        SignalAction::Initiate { peers } => assert_eq!(peers, vec!["a".to_string(), "b".to_string()]),
        _ => panic!("expected initiate"),
    }
}

#[test]
fn offers_answers_and_candidates() {
    let mesh = MeshManager::new("me".into());
    let mut offer = incoming("offer", "p");
    offer.sdp = JsonField::Text("v=0".into());
    assert!(matches!(handle_signaling_message(offer, "me", &mesh), SignalAction::AcceptOffer { .. }));
    assert!(matches!(handle_signaling_message(incoming("offer", "p"), "me", &mesh), SignalAction::Ignore));
    let mut answer = incoming("answer", "p");
    answer.sdp = JsonField::Text("v=0".into());
    assert!(matches!(handle_signaling_message(answer, "me", &mesh), SignalAction::Ignore));
    assert!(matches!(handle_signaling_message(incoming("ice_candidate", "p"), "me", &mesh), SignalAction::Ignore));
    match handle_signaling_message(incoming("bogus", "p"), "me", &mesh) {
        SignalAction::Unhandled { msg_type } => assert_eq!(msg_type, "bogus"),
        _ => panic!("expected unhandled"),
    }
}

#[test]
fn candidate_for_known_peer() {
    let rt = tokio::runtime::Builder::new_current_thread().enable_all().build().unwrap();
    rt.block_on(async {
        let mut mesh = MeshManager::new("me".into());
        let api = webrtc::api::APIBuilder::new().build();
        let pc = std::sync::Arc::new(
            api.new_peer_connection(webrtc::peer_connection::configuration::RTCConfiguration::default())
                .await
                .unwrap(),
        );
        mesh.add_peer("p", pc.clone());
        let mut c = incoming("ice_candidate", "p");
        c.candidate = JsonField::Other;
        c.sdp_mid = JsonField::Text("0".into());
        c.sdp_mline_index = Some(65537);
        match handle_signaling_message(c, "me", &mesh) {
            SignalAction::AddCandidate { from, pc: got, candidate, sdp_mid, sdp_mline_index } => {
                assert_eq!(from, "p");
                assert!(std::sync::Arc::ptr_eq(&got, &pc));
                assert_eq!(candidate, "");
                assert_eq!(sdp_mid, Some("0".to_string()));
                assert_eq!(sdp_mline_index, Some(1));
            }
            _ => panic!("expected a candidate"),
        }
        pc.close().await.unwrap();
    });
}
