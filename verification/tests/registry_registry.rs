use chatixia_mesh::registry::hub::{HubState, Task};
use chatixia_mesh::registry::registry::{
    default_port, heartbeat_at, AgentCapabilities, AgentInfo, AgentRecord, Heartbeat, RegistryState,
};

fn make_agent(id: &str, skills: Vec<String>, health: &str) -> AgentRecord {
    AgentRecord {
        info: AgentInfo {
            agent_id: id.to_string(),
            hostname: "localhost".into(),
            ip: "127.0.0.1".into(),
            port: default_port(),
            sidecar_peer_id: String::new(),
            capabilities: AgentCapabilities { skills, ..Default::default() },
            status: "running".into(),
            mode: "auto".into(),
        },
        health: health.to_string(),
        registered_at: "2025-01-01T00:00:00Z".into(),
        last_heartbeat: "2025-01-01T00:00:00Z".into(),
        last_heartbeat_epoch: 1_000_000,
        mesh_peers: Vec::new(),
    }
}

#[test]
fn test_new_registry_is_empty() {
    let reg = RegistryState::new();
    assert!(reg.list().is_empty());
}

#[test]
fn test_register_and_list() {
    let mut reg = RegistryState::new();
    reg.insert_record(make_agent("a1", vec!["search".into()], "active"));
    reg.insert_record(make_agent("a2", vec!["chat".into()], "active"));
    assert_eq!(reg.list().len(), 2);
}

#[test]
fn test_get_existing_agent() {
    let mut reg = RegistryState::new();
    reg.insert_record(make_agent("a1", vec![], "active"));
    let found = reg.get("a1").unwrap();
    assert_eq!(found.info.agent_id, "a1");
}

#[test]
fn test_get_missing_agent() {
    let reg = RegistryState::new();
    assert!(reg.get("nope").is_none());
}

#[test]
fn test_find_by_skill_filters_active_only() {
    let mut reg = RegistryState::new();
    reg.insert_record(make_agent("a1", vec!["search".into()], "active"));
    reg.insert_record(make_agent("a2", vec!["search".into()], "offline"));
    let results = reg.find_by_skill("search");
    assert_eq!(results.len(), 1);
    assert_eq!(results[0].info.agent_id, "a1");
}

#[test]
fn test_find_by_skill_no_match() {
    let mut reg = RegistryState::new();
    reg.insert_record(make_agent("a1", vec!["chat".into()], "active"));
    assert!(reg.find_by_skill("search").is_empty());
}

#[test]
fn test_agent_capabilities_default() {
    let caps = AgentCapabilities::default();
    assert!(caps.skills.is_empty());
    assert!(caps.mcp_servers.is_empty());
    assert_eq!(caps.goals_count, 0);
    assert_eq!(caps.mode, "");
}

#[test]
fn default_port_is_8000() {
    assert_eq!(default_port(), 8000);
}

#[test]
fn health_follows_heartbeat_age() {
    let mut reg = RegistryState::new();
    reg.insert_record(make_agent("a", vec![], "active"));
    reg.refresh_health(1_000_000 + 90_000);
    assert_eq!(reg.get("a").unwrap().health, "active");
    reg.refresh_health(1_000_000 + 90_001);
    assert_eq!(reg.get("a").unwrap().health, "stale");
    reg.refresh_health(1_000_000 + 270_001);
    assert_eq!(reg.get("a").unwrap().health, "offline");
    reg.refresh_health(0);
    assert_eq!(reg.get("a").unwrap().health, "active");
}

#[test]
fn register_then_delete() {
    let mut reg = RegistryState::new();
    let rec = make_agent("a", vec!["x".into()], "offline");
    reg.register_agent_at(rec.info.clone(), "T".into(), 42);
    let got = reg.get("a").unwrap();
    assert_eq!(got.health, "active");
    assert_eq!(got.registered_at, "T");
    assert_eq!(got.last_heartbeat_epoch, 42);
    assert!(reg.delete_agent("a"));
    assert!(!reg.delete_agent("a"));
    assert!(reg.get("a").is_none());
}

#[test]
fn route_picks_an_active_agent_with_the_skill() {
    let mut reg = RegistryState::new();
    reg.insert_record(make_agent("a1", vec!["search".into()], "stale"));
    assert!(reg.route_by_skill("search").is_none());
    reg.insert_record(make_agent("a2", vec!["search".into(), "chat".into()], "active"));
    assert_eq!(reg.route_by_skill("search").unwrap().info.agent_id, "a2");
}

fn hb(id: &str, skills: Vec<String>, sidecar: &str) -> Heartbeat {
    Heartbeat {
        agent_id: id.into(),
        hostname: "h2".into(),
        ip: "10.0.0.9".into(),
        port: 9000,
        status: "busy".into(),
        mode: "interactive".into(),
        skills_count: skills.len() as u32,
        goals_count: 3,
        uptime_seconds: 10,
        skill_names: skills,
        sidecar_peer_id: sidecar.into(),
        mesh_peers: Vec::new(),
    }
}

#[test]
fn first_heartbeat_registers_the_agent() {
    let mut reg = RegistryState::new();
    let mut hub = HubState::new();
    let pending = heartbeat_at(&mut reg, &mut hub, hb("new", vec!["s".into()], "sc-1"), "T1".into(), 5);
    assert!(pending.is_empty());
    let r = reg.get("new").unwrap();
    assert_eq!(r.health, "active");
    assert_eq!(r.registered_at, "T1");
    assert_eq!(r.info.sidecar_peer_id, "sc-1");
    assert_eq!(r.info.capabilities.mode, "interactive");
    assert_eq!(r.info.capabilities.goals_count, 3);
    assert!(r.mesh_peers.is_empty());
}

#[test]
fn heartbeat_refreshes_and_collects_tasks() {
    let mut reg = RegistryState::new();
    let mut hub = HubState::new();
    let mut rec = make_agent("a", vec![], "offline");
    rec.info.sidecar_peer_id = "sc-old".into();
    rec.info.capabilities.mcp_servers = vec!["mcp".into()];
    reg.insert_record(rec);
    hub.insert_task(Task {
        id: "t".into(),
        skill: "s".into(),
        target_agent_id: String::new(),
        source_agent_id: String::new(),
        assigned_agent_id: String::new(),
        payload: "null".into(),
        state: "pending".into(),
        result: String::new(),
        error: String::new(),
        created_at: 0,
        updated_at: 0,
        ttl: 300,
    });
    let mut beat = hb("a", vec!["s".into()], "");
    beat.mesh_peers = vec!["sc-b".into(), "sc-c".into()];
    let pending = heartbeat_at(&mut reg, &mut hub, beat, "T2".into(), 77);
    assert_eq!(pending.len(), 1);
    assert_eq!(pending[0].assigned_agent_id, "a");
    let r = reg.get("a").unwrap();
    assert_eq!(r.health, "active");
    assert_eq!(r.last_heartbeat, "T2");
    assert_eq!(r.registered_at, "2025-01-01T00:00:00Z");
    assert_eq!(r.info.sidecar_peer_id, "sc-old");
    assert_eq!(r.info.capabilities.mcp_servers, vec!["mcp".to_string()]);
    assert_eq!(r.info.capabilities.skills, vec!["s".to_string()]);
    assert_eq!(r.info.capabilities.mode, "");
    assert_eq!(r.info.port, 9000);
    assert_eq!(r.mesh_peers, vec!["sc-b".to_string(), "sc-c".to_string()]);
}
