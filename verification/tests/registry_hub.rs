use chatixia_mesh::registry::hub::{default_ttl, HubState, Task, TaskSubmission, TaskUpdate};

fn make_task(id: &str, skill: &str, target: &str, state: &str) -> Task {
    Task {
        id: id.to_string(),
        skill: skill.to_string(),
        target_agent_id: target.to_string(),
        source_agent_id: "src".into(),
        assigned_agent_id: String::new(),
        payload: "{}".into(),
        state: state.to_string(),
        result: String::new(),
        error: String::new(),
        created_at: 1_000,
        updated_at: 1_000,
        ttl: 300,
    }
}

#[test]
fn test_new_hub_is_empty() {
    let hub = HubState::new();
    assert!(hub.list_tasks().is_empty());
}

#[test]
fn test_submit_and_get_task() {
    let mut hub = HubState::new();
    hub.insert_task(make_task("t1", "search", "a1", "pending"));
    assert!(hub.get_task("t1").is_some());
    assert_eq!(hub.get_task("t1").unwrap().skill, "search");
}

#[test]
fn test_get_pending_by_agent_id() {
    let mut hub = HubState::new();
    hub.insert_task(make_task("t1", "", "agent-1", "pending"));
    let result = hub.get_pending_for_agent("agent-1", &[]);
    assert_eq!(result.len(), 1);
    assert_eq!(result[0].id, "t1");
}

#[test]
fn test_get_pending_by_skill() {
    let mut hub = HubState::new();
    hub.insert_task(make_task("t1", "search", "", "pending"));
    let result = hub.get_pending_for_agent("any-agent", &["search".to_string()]);
    assert_eq!(result.len(), 1);
    assert_eq!(result[0].id, "t1");
}

#[test]
fn test_get_pending_marks_assigned() {
    let mut hub = HubState::new();
    hub.insert_task(make_task("t1", "search", "", "pending"));
    let result = hub.get_pending_for_agent("a1", &["search".to_string()]);
    assert_eq!(result[0].state, "assigned");
    assert_eq!(hub.get_task("t1").unwrap().state, "assigned");
}

#[test]
fn test_get_pending_skips_completed() {
    let mut hub = HubState::new();
    hub.insert_task(make_task("t1", "search", "a1", "completed"));
    let result = hub.get_pending_for_agent("a1", &["search".to_string()]);
    assert!(result.is_empty());
}

#[test]
fn test_default_ttl() {
    assert_eq!(default_ttl(), 300);
}

#[test]
fn second_poll_hands_out_nothing() {
    let mut hub = HubState::new();
    hub.insert_task(make_task("t1", "search", "", "pending"));
    hub.insert_task(make_task("t2", "", "a1", "pending"));
    hub.insert_task(make_task("t3", "chat", "", "pending"));
    let first = hub.get_pending_for_agent_at("a1", &["search".to_string()], 5_000);
    assert_eq!(first.len(), 2);
    assert!(first.iter().all(|t| t.assigned_agent_id == "a1" && t.updated_at == 5_000));
    let second = hub.get_pending_for_agent_at("a1", &["search".to_string()], 6_000);
    assert!(second.is_empty());
    assert_eq!(hub.get_task("t3").unwrap().state, "pending");
}

#[test]
fn empty_skill_never_matches() {
    let mut hub = HubState::new();
    hub.insert_task(make_task("t1", "", "someone", "pending"));
    assert!(hub.get_pending_for_agent_at("a1", &["".to_string()], 1).is_empty());
}

#[test]
fn expiry_fails_stale_tasks_only() {
    let mut hub = HubState::new();
    hub.insert_task(make_task("old", "s", "", "pending"));
    hub.insert_task(make_task("done", "s", "", "completed"));
    hub.insert_task(make_task("assigned", "s", "", "assigned"));
    hub.expire_tasks(1_000 + 300_000);
    assert_eq!(hub.get_task("old").unwrap().state, "pending");
    hub.expire_tasks(1_000 + 300_001);
    let old = hub.get_task("old").unwrap();
    assert_eq!(old.state, "failed");
    assert_eq!(old.error, "TTL expired");
    assert_eq!(old.updated_at, 301_001);
    assert_eq!(hub.get_task("done").unwrap().state, "completed");
    assert_eq!(hub.get_task("assigned").unwrap().state, "failed");
}

#[test]
fn clock_before_creation_never_expires() {
    let mut hub = HubState::new();
    hub.insert_task(make_task("t", "s", "", "pending"));
    hub.expire_tasks(10);
    assert_eq!(hub.get_task("t").unwrap().state, "pending");
}

#[test]
fn update_keeps_result_unless_given() {
    let mut hub = HubState::new();
    hub.insert_task(make_task("t", "s", "", "pending"));
    let upd = |s: &str, r: &str, e: &str| TaskUpdate { state: s.into(), result: r.into(), error: e.into() };
    assert!(hub.update_task_at("t", upd("running", "partial", ""), 7));
    assert!(hub.update_task_at("t", upd("completed", "", ""), 8));
    let t = hub.get_task("t").unwrap();
    assert_eq!(t.state, "completed");
    assert_eq!(t.result, "partial");
    assert_eq!(t.error, "");
    assert_eq!(t.updated_at, 8);
    assert!(!hub.update_task("missing", upd("x", "", "")));
}

#[test]
fn submitted_task_is_pending() {
    let mut hub = HubState::new();
    let sub = TaskSubmission {
        skill: "search".into(),
        target_agent_id: String::new(),
        source_agent_id: "me".into(),
        payload: "{\"q\":1}".into(),
        ttl: default_ttl(),
    };
    let id = hub.submit_task(sub);
    assert_eq!(id.chars().count(), 12);
    for (i, c) in id.chars().enumerate() {
        if i == 8 {
            assert_eq!(c, '-');
        } else {
            assert!(c.is_ascii_hexdigit() && !c.is_ascii_uppercase());
        }
    }
    let t = hub.get_task(&id).unwrap();
    assert_eq!(t.state, "pending");
    assert_eq!(t.payload, "{\"q\":1}");
    assert_eq!(t.created_at, t.updated_at);
    assert_eq!(hub.list_tasks().len(), 1);
}

#[test]
fn submitted_task_reaches_its_target_on_next_poll() {
    let mut hub = HubState::new();
    let sub = TaskSubmission {
        skill: String::new(),
        target_agent_id: "agent-7".into(),
        source_agent_id: "agent-1".into(),
        payload: "{\"job\":\"x\"}".into(),
        ttl: 60,
    };
    hub.submit_task_at(sub, "task-000007".into(), 5_000);
    let other = hub.get_pending_for_agent_at("agent-8", &[], 6_000);
    assert!(other.is_empty());
    let got = hub.get_pending_for_agent_at("agent-7", &[], 7_000);
    assert_eq!(got.len(), 1);
    assert_eq!(got[0].id, "task-000007");
    assert_eq!(got[0].state, "assigned");
    assert_eq!(got[0].assigned_agent_id, "agent-7");
    assert_eq!(got[0].payload, "{\"job\":\"x\"}");
    assert_eq!(got[0].created_at, 5_000);
    assert_eq!(got[0].updated_at, 7_000);
    assert_eq!(got[0].ttl, 60);
}
