use chatixia_mesh::registry::registry::{AgentCapabilities, AgentInfo, AgentRecord, RegistryState};
use chatixia_mesh::registry::topology::{build_topology, network_topology};

fn agent(id: &str, sidecar: &str, health: &str, skills: usize) -> AgentRecord {
    AgentRecord {
        info: AgentInfo {
            agent_id: id.into(),
            hostname: format!("host-{}", id),
            ip: "10.0.0.1".into(),
            port: 8000,
            sidecar_peer_id: sidecar.into(),
            capabilities: AgentCapabilities {
                skills: (0..skills).map(|i| format!("s{}", i)).collect(),
                ..Default::default()
            },
            status: String::new(),
            mode: "auto".into(),
        },
        health: health.into(),
        registered_at: String::new(),
        last_heartbeat: String::new(),
        last_heartbeat_epoch: 0,
        mesh_peers: Vec::new(),
    }
}

#[test]
fn full_mesh_between_active_sidecars() {
    let mut a1 = agent("a1", "sc-1", "active", 3);
    a1.mesh_peers = vec!["sc-2".to_string()];
    let agents = vec![
        a1,
        agent("a2", "sc-2", "active", 0),
        agent("a3", "", "active", 1),
        agent("a4", "sc-4", "offline", 0),
        agent("a5", "sc-5", "active", 0),
    ];
    let topo = build_topology(&agents);
    assert_eq!(topo.nodes.len(), 5);
    assert_eq!(topo.nodes[0].skills_count, 3);
    assert_eq!(topo.nodes[0].mesh_peers, vec!["sc-2".to_string()]);
    assert!(topo.nodes[2].mesh_peers.is_empty());
    let edges: Vec<(String, String)> = topo.mesh_edges.iter().map(|e| (e.from_peer.clone(), e.to_peer.clone())).collect();
    assert_eq!(
        edges,
        vec![
            ("sc-1".to_string(), "sc-2".to_string()),
            ("sc-1".to_string(), "sc-5".to_string()),
            ("sc-2".to_string(), "sc-5".to_string()),
        ]
    );
}

#[test]
fn lone_agent_has_no_edges() {
    let topo = build_topology(&vec![agent("solo", "sc-solo", "active", 0)]);
    assert_eq!(topo.nodes.len(), 1);
    assert!(topo.nodes[0].mesh_peers.is_empty());
    assert!(topo.mesh_edges.is_empty());
}

#[test]
fn topology_of_registry() {
    let mut reg = RegistryState::new();
    for i in 0..4 {
        reg.insert_record(agent(&format!("a{}", i), &format!("sc-{}", i), "active", 0));
    }
    let topo = network_topology(&reg);
    assert_eq!(topo.nodes.len(), 4);
    assert_eq!(topo.mesh_edges.len(), 6);
    assert!(topo.mesh_edges.iter().all(|e| e.from_peer != e.to_peer));
}
