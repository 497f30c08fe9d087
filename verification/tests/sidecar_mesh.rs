use chatixia_mesh::sidecar::mesh::MeshManager;
use chatixia_mesh::sidecar::protocol::MeshMessage;

fn runtime() -> tokio::runtime::Runtime {
    tokio::runtime::Builder::new_current_thread().enable_all().build().unwrap()
}

async fn new_pc() -> std::sync::Arc<webrtc::peer_connection::RTCPeerConnection> {
    let api = webrtc::api::APIBuilder::new().build();
    std::sync::Arc::new(
        api.new_peer_connection(webrtc::peer_connection::configuration::RTCConfiguration::default())
            .await
            .unwrap(),
    )
}

#[test]
fn test_new_mesh_manager() {
    let mgr = MeshManager::new("local-1".into());
    assert_eq!(mgr.local_peer_id, "local-1");
    assert!(mgr.connected_peers().is_empty());
}

#[test]
fn test_connected_peers_empty() {
    let mgr = MeshManager::new("local-2".into());
    let peers = mgr.connected_peers();
    assert!(peers.is_empty());
}

#[test]
fn test_is_connected_empty() {
    let mgr = MeshManager::new("local-3".into());
    assert!(!mgr.is_connected("nonexistent"));
    assert!(!mgr.is_connected(""));
}

#[test]
fn test_remove_nonexistent_peer() {
    let mut mgr = MeshManager::new("local-4".into());
    mgr.remove_peer("ghost-peer");
    assert!(mgr.connected_peers().is_empty());
}

#[test]
fn test_add_peer_and_get_pc() {
    runtime().block_on(async {
        let mut mgr = MeshManager::new("local-5".into());
        let pc = new_pc().await;
        mgr.add_peer("remote-1", pc.clone());
        assert!(mgr.get_pc("remote-1").is_some());
        assert!(mgr.get_pc("nonexistent").is_none());
        assert!(mgr.connected_peers().is_empty());
        pc.close().await.unwrap();
    });
}

#[test]
fn test_remove_peer_cleans_up() {
    runtime().block_on(async {
        let mut mgr = MeshManager::new("local-6".into());
        let pc = new_pc().await;
        mgr.add_peer("remote-2", pc.clone());
        assert!(mgr.get_pc("remote-2").is_some());
        mgr.remove_peer("remote-2");
        assert!(mgr.get_pc("remote-2").is_none());
        pc.close().await.unwrap();
    });
}

#[test]
fn test_set_channel_and_connected_peers() {
    runtime().block_on(async {
        let mut mgr = MeshManager::new("local-7".into());
        let pc = new_pc().await;
        let dc = pc.create_data_channel("test", None).await.unwrap();
        mgr.add_peer("remote-3", pc.clone());
        mgr.set_channel("remote-3", dc);
        assert!(mgr.is_connected("remote-3"));
        assert_eq!(mgr.connected_peers(), vec!["remote-3".to_string()]);
        pc.close().await.unwrap();
    });
}

#[test]
fn test_clear_all_peers() {
    runtime().block_on(async {
        let mut mgr = MeshManager::new("local-8".into());
        let pc1 = new_pc().await;
        let pc2 = new_pc().await;
        let dc1 = pc1.create_data_channel("c1", None).await.unwrap();
        let dc2 = pc2.create_data_channel("c2", None).await.unwrap();
        mgr.add_peer("p1", pc1);
        mgr.add_peer("p2", pc2);
        mgr.set_channel("p1", dc1);
        mgr.set_channel("p2", dc2);
        assert_eq!(mgr.connected_peers().len(), 2);
        let removed = mgr.clear_all_peers();
        assert_eq!(removed.len(), 2);
        for pc in removed {
            let _ = pc.close().await;
        }
        assert!(mgr.connected_peers().is_empty());
        assert!(mgr.get_pc("p1").is_none());
        assert!(mgr.get_pc("p2").is_none());
    });
}

#[test]
fn test_multiple_peers_ordering() {
    runtime().block_on(async {
        let mut mgr = MeshManager::new("local-9".into());
        for i in 0..5 {
            let pc = new_pc().await;
            let dc = pc.create_data_channel("ch", None).await.unwrap();
            mgr.add_peer(&format!("peer-{}", i), pc);
            mgr.set_channel(&format!("peer-{}", i), dc);
        }
        let peers = mgr.connected_peers();
        assert_eq!(peers.len(), 5);
        for i in 0..5 {
            assert!(mgr.is_connected(&format!("peer-{}", i)));
        }
    });
}

fn ping() -> MeshMessage {
    MeshMessage {
        msg_type: "ping".into(),
        request_id: "r1".into(),
        source_agent: "a".into(),
        target_agent: "b".into(),
        payload: "null".into(),
    }
}

#[test]
fn send_to_needs_a_channel() {
    runtime().block_on(async {
        let mut mgr = MeshManager::new("me".into());
        let err = mgr.send_to("nobody", &ping()).err().unwrap();
        assert_eq!(err, "no channel for peer: nobody");
        let pc = new_pc().await;
        let dc = pc.create_data_channel("ch", None).await.unwrap();
        mgr.set_channel("x", dc.clone());
        let (got, text) = mgr.send_to("x", &ping()).ok().unwrap();
        assert!(std::sync::Arc::ptr_eq(&got, &dc));
        assert_eq!(text, r#"{"type":"ping","request_id":"r1","source_agent":"a","target_agent":"b","payload":null}"#);
        let (btext, targets) = mgr.broadcast(&ping());
        assert_eq!(btext, text);
        assert_eq!(targets.len(), 1);
        pc.close().await.unwrap();
    });
}

#[test]
fn clearing_also_drops_channels_without_connection() {
    runtime().block_on(async {
        let mut mgr = MeshManager::new("me".into());
        let pc = new_pc().await;
        let dc = pc.create_data_channel("ch", None).await.unwrap();
        mgr.set_channel("orphan", dc);
        assert!(mgr.get_pc("orphan").is_none());
        assert!(mgr.clear_all_peers().is_empty());
        assert!(!mgr.is_connected("orphan"));
        assert!(mgr.connected_peers().is_empty());
        pc.close().await.unwrap();
    });
}
