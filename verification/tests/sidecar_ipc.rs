use chatixia_mesh::sidecar::ipc::{handle_agent_command, AgentAction, AgentCommand, JsonField};
use chatixia_mesh::sidecar::mesh::MeshManager;
use chatixia_mesh::sidecar::protocol::MeshMessage;

fn cmd(t: &str) -> AgentCommand {
    AgentCommand {
        msg_type: t.into(),
        target_peer: JsonField::Absent,
        message: None,
        peer_id: JsonField::Absent,
        target_peer_id: JsonField::Absent,
    }
}

fn msg() -> MeshMessage {
    MeshMessage {
        msg_type: "ping".into(),
        request_id: String::new(),
        source_agent: String::new(),
        target_agent: String::new(),
        payload: "null".into(),
    }
}

#[test]
fn send_uses_target_or_empty() {
    let mesh = MeshManager::new("me".into());
    let mut c = cmd("send");
    c.message = Some(Some(msg()));
    c.target_peer = JsonField::Other;
    match handle_agent_command(c, &mesh, true) {
        AgentAction::Send { target, message } => {
            assert_eq!(target, "");
            assert_eq!(message.msg_type, "ping");
        }
        _ => panic!("expected send"),
    }
    let mut bad = cmd("send");
    bad.message = Some(None);
    assert!(matches!(handle_agent_command(bad, &mesh, true), AgentAction::Nothing));
}

#[test]
fn broadcast_needs_a_message() {
    let mesh = MeshManager::new("me".into());
    assert!(matches!(handle_agent_command(cmd("broadcast"), &mesh, true), AgentAction::Nothing));
    let mut c = cmd("broadcast");
    c.message = Some(Some(msg()));
    assert!(matches!(handle_agent_command(c, &mesh, true), AgentAction::Broadcast { .. }));
}

#[test]
fn list_peers_replies_with_peer_list() {
    let mesh = MeshManager::new("me".into());
    match handle_agent_command(cmd("list_peers"), &mesh, false) {
        AgentAction::Reply { event } => {
            assert_eq!(event.to_json(), r#"{"type":"peer_list","payload":{"peers":[]}}"#);
        }
        _ => panic!("expected a reply"),
    }
}

#[test]
fn connect_validates_target() {
    let mesh = MeshManager::new("me".into());
    assert!(matches!(handle_agent_command(cmd("connect"), &mesh, true), AgentAction::InvalidTarget { .. }));
    let mut selfc = cmd("connect");
    selfc.peer_id = JsonField::Text("me".into());
    assert!(matches!(handle_agent_command(selfc, &mesh, true), AgentAction::InvalidTarget { .. }));
    let mut c = cmd("connect");
    c.target_peer_id = JsonField::Text("other".into());
    match handle_agent_command(c, &mesh, true) {
        AgentAction::Connect { target } => assert_eq!(target, "other"),
        _ => panic!("expected connect"),
    }
    let mut no_sig = cmd("connect");
    no_sig.peer_id = JsonField::Text("other".into());
    assert!(matches!(handle_agent_command(no_sig, &mesh, false), AgentAction::SignalingUnavailable { .. }));
    let mut shadowed = cmd("connect");
    shadowed.peer_id = JsonField::Other;
    shadowed.target_peer_id = JsonField::Text("other".into());
    assert!(matches!(handle_agent_command(shadowed, &mesh, true), AgentAction::InvalidTarget { .. }));
}

#[test]
fn unknown_command_is_reported() {
    let mesh = MeshManager::new("me".into());
    match handle_agent_command(cmd("dance"), &mesh, true) {
        AgentAction::Unknown { msg_type } => assert_eq!(msg_type, "dance"),
        _ => panic!("expected unknown"),
    }
}
