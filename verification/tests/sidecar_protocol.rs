use chatixia_mesh::sidecar::protocol::{ipc_types, mesh_types, IpcMessage, MeshMessage, SignalingMessage};

#[test]
fn test_signaling_message_serialize_with_target() {
    let msg = SignalingMessage {
        msg_type: "offer".into(),
        peer_id: "peer-1".into(),
        target_id: Some("peer-2".into()),
        payload: r#"{"sdp":"..."}"#.into(),
    };
    let json: serde_json::Value = serde_json::from_str(&msg.to_json()).unwrap();
    assert_eq!(json["type"], "offer");
    assert_eq!(json["peer_id"], "peer-1");
    assert_eq!(json["target_id"], "peer-2");
    assert_eq!(json["payload"]["sdp"], "...");
    assert!(json.get("msg_type").is_none());
}

#[test]
fn test_signaling_message_serialize_without_target() {
    let msg = SignalingMessage { msg_type: "join".into(), peer_id: "peer-1".into(), target_id: None, payload: "null".into() };
    let json: serde_json::Value = serde_json::from_str(&msg.to_json()).unwrap();
    assert!(json.get("target_id").is_none());
}

#[test]
fn test_mesh_message_serialize() {
    let msg = MeshMessage {
        msg_type: mesh_types::TASK_REQUEST.into(),
        request_id: "req-1".into(),
        source_agent: "agent-a".into(),
        target_agent: "agent-b".into(),
        payload: r#"{"task":"summarize"}"#.into(),
    };
    let json: serde_json::Value = serde_json::from_str(&msg.to_json()).unwrap();
    assert_eq!(json["type"], "task_request");
    assert_eq!(json["request_id"], "req-1");
    assert_eq!(json["source_agent"], "agent-a");
    assert_eq!(json["target_agent"], "agent-b");
    assert_eq!(json["payload"]["task"], "summarize");
    assert!(json.get("msg_type").is_none());
}

#[test]
fn test_ipc_message_serialize() {
    let msg = IpcMessage { msg_type: ipc_types::SEND.into(), payload: r#"{"target":"peer-3","data":42}"#.into() };
    let json: serde_json::Value = serde_json::from_str(&msg.to_json()).unwrap();
    assert_eq!(json["type"], "send");
    assert_eq!(json["payload"]["target"], "peer-3");
    assert!(json.get("msg_type").is_none());
}

#[test]
fn test_mesh_type_constants() {
    assert_eq!(mesh_types::PING, "ping");
    assert_eq!(mesh_types::PONG, "pong");
    assert_eq!(mesh_types::TASK_REQUEST, "task_request");
    assert_eq!(mesh_types::TASK_RESPONSE, "task_response");
    assert_eq!(mesh_types::TASK_STREAM_CHUNK, "task_stream_chunk");
    assert_eq!(mesh_types::SKILL_QUERY, "skill_query");
    assert_eq!(mesh_types::SKILL_RESPONSE, "skill_response");
    assert_eq!(mesh_types::AGENT_STATUS, "agent_status");
    assert_eq!(mesh_types::AGENT_PROMPT, "agent_prompt");
    assert_eq!(mesh_types::AGENT_RESPONSE, "agent_response");
    assert_eq!(mesh_types::AGENT_STREAM_CHUNK, "agent_stream_chunk");
}

#[test]
fn test_ipc_type_constants() {
    assert_eq!(ipc_types::SEND, "send");
    assert_eq!(ipc_types::BROADCAST, "broadcast");
    assert_eq!(ipc_types::CONNECT, "connect");
    assert_eq!(ipc_types::LIST_PEERS, "list_peers");
    assert_eq!(ipc_types::MESSAGE, "message");
    assert_eq!(ipc_types::PEER_CONNECTED, "peer_connected");
    assert_eq!(ipc_types::PEER_DISCONNECTED, "peer_disconnected");
    assert_eq!(ipc_types::PEER_LIST, "peer_list");
}

#[test]
fn strings_are_escaped_like_serde_json() {
    let tricky = "q\"b\\n\nr\rt\tx\u{1}y\u{8}\u{c}é/\u{7f}";
    let msg = IpcMessage { msg_type: tricky.into(), payload: "[]".into() };
    let expected = format!("{{\"type\":{},\"payload\":[]}}", serde_json::to_string(tricky).unwrap());
    assert_eq!(msg.to_json(), expected);
    let line = msg.to_json_line();
    assert!(line.ends_with('\n'));
    let back: serde_json::Value = serde_json::from_str(line.trim_end()).unwrap();
    assert_eq!(back["type"], tricky);
}

#[test]
fn sorted_mesh_json_matches_a_json_value() {
    let msg = MeshMessage {
        msg_type: "t".into(),
        request_id: "r".into(),
        source_agent: "s".into(),
        target_agent: "g".into(),
        payload: r#"{"a":1}"#.into(),
    };
    let v: serde_json::Value = serde_json::from_str(&msg.to_json()).unwrap();
    assert_eq!(msg.to_sorted_json(), serde_json::to_string(&v).unwrap());
}
