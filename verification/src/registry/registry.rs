//! Agent registry — tracks agents, their skills, health and capabilities.
//!
//! Times are milliseconds since the Unix epoch.

use vstd::prelude::*;
use crate::clock::{now_rfc3339, now_unix_millis, read_from_millis_clock};
use crate::registry::hub::{HubState, Task, poll_outcome};
use crate::registry::hub::{contains_string, lemma_take_push};
use crate::text::{str_eq, views};

verus! {

/// Agent registration payload.
pub struct AgentInfo {
    pub agent_id: String,
    pub hostname: String,
    pub ip: String,
    pub port: u16,
    pub sidecar_peer_id: String,
    pub capabilities: AgentCapabilities,
    pub status: String,
    pub mode: String,
}

/// Default agent port.
pub fn default_port() -> (r: u16)
    ensures
        r == 8000,
{
    8000
}

pub struct AgentCapabilities {
    pub skills: Vec<String>,
    pub mcp_servers: Vec<String>,
    pub goals_count: u32,
    pub mode: String,
}

/// Internal agent record with metadata.
pub struct AgentRecord {
    pub info: AgentInfo,
    pub health: String,
    pub registered_at: String,
    pub last_heartbeat: String,
    /// Milliseconds since the Unix epoch.
    pub last_heartbeat_epoch: u64,
    /// Sidecar peer ids this agent's sidecar had open DataChannels with, as
    /// its last heartbeat reported them.
    pub mesh_peers: Vec<String>,
}

/// Heartbeat payload (from the agent SDK).
pub struct Heartbeat {
    pub agent_id: String,
    pub hostname: String,
    pub ip: String,
    pub port: u16,
    pub status: String,
    pub mode: String,
    pub skills_count: u32,
    pub goals_count: u32,
    pub uptime_seconds: u64,
    pub skill_names: Vec<String>,
    pub sidecar_peer_id: String,
    /// Sidecar peer ids the agent's sidecar has open DataChannels with
    /// (empty when the agent does not report them).
    pub mesh_peers: Vec<String>,
}

pub struct RouteQuery {
    pub skill: String,
}

// ─── Views ───────────────────────────────────────────────────────────────

pub struct AgentCapabilitiesView {
    pub skills: Seq<Seq<char>>,
    pub mcp_servers: Seq<Seq<char>>,
    pub goals_count: u32,
    pub mode: Seq<char>,
}

pub struct AgentInfoView {
    pub agent_id: Seq<char>,
    pub hostname: Seq<char>,
    pub ip: Seq<char>,
    pub port: u16,
    pub sidecar_peer_id: Seq<char>,
    pub capabilities: AgentCapabilitiesView,
    pub status: Seq<char>,
    pub mode: Seq<char>,
}

pub struct AgentRecordView {
    pub info: AgentInfoView,
    pub health: Seq<char>,
    pub registered_at: Seq<char>,
    pub last_heartbeat: Seq<char>,
    pub last_heartbeat_epoch: u64,
    pub mesh_peers: Seq<Seq<char>>,
}

impl View for AgentCapabilities {
    type V = AgentCapabilitiesView;

    open spec fn view(&self) -> AgentCapabilitiesView {
        AgentCapabilitiesView {
            skills: views(self.skills@),
            mcp_servers: views(self.mcp_servers@),
            goals_count: self.goals_count,
            mode: self.mode@,
        }
    }
}

impl View for AgentInfo {
    type V = AgentInfoView;

    open spec fn view(&self) -> AgentInfoView {
        AgentInfoView {
            agent_id: self.agent_id@,
            hostname: self.hostname@,
            ip: self.ip@,
            port: self.port,
            sidecar_peer_id: self.sidecar_peer_id@,
            capabilities: self.capabilities@,
            status: self.status@,
            mode: self.mode@,
        }
    }
}

impl View for AgentRecord {
    type V = AgentRecordView;

    open spec fn view(&self) -> AgentRecordView {
        AgentRecordView {
            info: self.info@,
            health: self.health@,
            registered_at: self.registered_at@,
            last_heartbeat: self.last_heartbeat@,
            last_heartbeat_epoch: self.last_heartbeat_epoch,
            mesh_peers: views(self.mesh_peers@),
        }
    }
}

/// A copy of a list of strings.
pub fn copy_strings(v: &Vec<String>) -> (r: Vec<String>)
    ensures
        views(r@) == views(v@),
{
    let mut out: Vec<String> = Vec::new();
    let n = v.len();
    for i in 0..n
        invariant
            n == v@.len(),
            out@.len() == i,
            forall|j: int| 0 <= j < i ==> #[trigger] out@[j]@ == v@[j]@,
    {
        out.push(v[i].clone());
    }
    assert(views(out@) =~= views(v@));
    out
}

impl Clone for AgentCapabilities {
    fn clone(&self) -> (r: Self)
        ensures
            r@ == self@,
    {
        AgentCapabilities {
            skills: copy_strings(&self.skills),
            mcp_servers: copy_strings(&self.mcp_servers),
            goals_count: self.goals_count,
            mode: self.mode.clone(),
        }
    }
}

impl Default for AgentCapabilities {
    fn default() -> (r: Self)
        ensures
            r@.skills.len() == 0,
            r@.mcp_servers.len() == 0,
            r@.goals_count == 0,
            r@.mode.len() == 0,
    {
        let r = AgentCapabilities { skills: Vec::new(), mcp_servers: Vec::new(), goals_count: 0, mode: String::new() };
        assert(views(r.skills@) =~= Seq::<Seq<char>>::empty());
        assert(views(r.mcp_servers@) =~= Seq::<Seq<char>>::empty());
        r
    }
}

impl Clone for AgentInfo {
    fn clone(&self) -> (r: Self)
        ensures
            r@ == self@,
    {
        AgentInfo {
            agent_id: self.agent_id.clone(),
            hostname: self.hostname.clone(),
            ip: self.ip.clone(),
            port: self.port,
            sidecar_peer_id: self.sidecar_peer_id.clone(),
            capabilities: self.capabilities.clone(),
            status: self.status.clone(),
            mode: self.mode.clone(),
        }
    }
}

impl Clone for AgentRecord {
    fn clone(&self) -> (r: Self)
        ensures
            r@ == self@,
    {
        AgentRecord {
            info: self.info.clone(),
            health: self.health.clone(),
            registered_at: self.registered_at.clone(),
            last_heartbeat: self.last_heartbeat.clone(),
            last_heartbeat_epoch: self.last_heartbeat_epoch,
            mesh_peers: copy_strings(&self.mesh_peers),
        }
    }
}

// ─── The agent table ─────────────────────────────────────────────────────

/// The agent records a `DashMap` holds, by key.
pub uninterp spec fn agent_table(m: dashmap::DashMap<String, AgentRecord>) -> Map<Seq<char>, AgentRecordView>;

/// `DashMap::new`: an empty map.
#[verifier::external_body]
fn table_new() -> (r: dashmap::DashMap<String, AgentRecord>)
    ensures
        forall|k: Seq<char>| !agent_table(r).contains_key(k),
{
    dashmap::DashMap::new()
}

/// `DashMap::insert`: the key now maps to the value, other keys unchanged.
#[verifier::external_body]
fn table_insert(m: &mut dashmap::DashMap<String, AgentRecord>, key: String, value: AgentRecord)
    ensures
        agent_table(*final(m)) == agent_table(*old(m)).insert(key@, value@),
{
    m.insert(key, value);
}

/// `DashMap::remove`: the key is gone; the result says whether it was there.
#[verifier::external_body]
fn table_remove(m: &mut dashmap::DashMap<String, AgentRecord>, key: &str) -> (r: bool)
    ensures
        r == agent_table(*old(m)).contains_key(key@),
        agent_table(*final(m)) == agent_table(*old(m)).remove(key@),
{
    m.remove(key).is_some()
}

/// `DashMap::get`: the value stored under the key, if any (handed out as a copy).
#[verifier::external_body]
fn table_get(m: &dashmap::DashMap<String, AgentRecord>, key: &str) -> (r: Option<AgentRecord>)
    ensures
        match r {
            Some(a) => agent_table(*m).contains_key(key@) && a@ == agent_table(*m)[key@],
            None => !agent_table(*m).contains_key(key@),
        },
{
    m.get(key).map(|e| e.value().clone())
}

/// `DashMap::iter`: every entry exactly once, each as a copy, in an order
/// that the map does not promise.
#[verifier::external_body]
fn table_entries(m: &dashmap::DashMap<String, AgentRecord>) -> (r: Vec<(String, AgentRecord)>)
    ensures
        forall|i: int|
            0 <= i < r@.len() ==> agent_table(*m).contains_key(#[trigger] r@[i].0@)
                && r@[i].1@ == agent_table(*m)[r@[i].0@],
        forall|i: int, j: int| 0 <= i < j < r@.len() ==> r@[i].0@ != r@[j].0@,
        forall|k: Seq<char>|
            agent_table(*m).contains_key(k) ==> exists|i: int| 0 <= i < r@.len() && #[trigger] r@[i].0@ == k,
{
    m.iter().map(|e| (e.key().clone(), e.value().clone())).collect()
}

// ─── Registry rules ──────────────────────────────────────────────────────

/// An agent is offered for a skill when it is active and lists that skill.
pub open spec fn serves_skill(a: AgentRecordView, skill: Seq<char>) -> bool {
    a.health == "active"@ && a.info.capabilities.skills.contains(skill)
}

/// Health of an agent whose last heartbeat was at `last`, judged at `now`:
/// offline after more than 270 s of silence, stale after more than 90 s.
pub open spec fn health_at(now: u64, last: u64) -> Seq<char> {
    if now >= last && now - last > 270_000 {
        "offline"@
    } else if now >= last && now - last > 90_000 {
        "stale"@
    } else {
        "active"@
    }
}

/// A freshly registered agent.
pub open spec fn registered(info: AgentInfoView, now_text: Seq<char>, now: u64) -> AgentRecordView {
    AgentRecordView {
        info: info,
        health: "active"@,
        registered_at: now_text,
        last_heartbeat: now_text,
        last_heartbeat_epoch: now,
        mesh_peers: Seq::empty(),
    }
}

/// The record of the heartbeat's agent after the heartbeat: an existing
/// record is refreshed (its sidecar peer id only when the heartbeat names
/// one, its MCP servers and capability mode kept); a missing one is created.
/// Either way its mesh peers become those the heartbeat reports.
pub open spec fn after_heartbeat(
    prev: Option<AgentRecordView>,
    hb: Heartbeat,
    now_text: Seq<char>,
    now: u64,
) -> AgentRecordView {
    match prev {
        Some(rec) => AgentRecordView {
            info: AgentInfoView {
                hostname: hb.hostname@,
                ip: hb.ip@,
                port: hb.port,
                status: hb.status@,
                mode: hb.mode@,
                capabilities: AgentCapabilitiesView {
                    skills: views(hb.skill_names@),
                    goals_count: hb.goals_count,
                    ..rec.info.capabilities
                },
                sidecar_peer_id: if hb.sidecar_peer_id@.len() > 0 {
                    hb.sidecar_peer_id@
                } else {
                    rec.info.sidecar_peer_id
                },
                ..rec.info
            },
            health: "active"@,
            last_heartbeat: now_text,
            last_heartbeat_epoch: now,
            mesh_peers: views(hb.mesh_peers@),
            ..rec
        },
        None => AgentRecordView {
            info: AgentInfoView {
                agent_id: hb.agent_id@,
                hostname: hb.hostname@,
                ip: hb.ip@,
                port: hb.port,
                sidecar_peer_id: hb.sidecar_peer_id@,
                capabilities: AgentCapabilitiesView {
                    skills: views(hb.skill_names@),
                    mcp_servers: Seq::empty(),
                    goals_count: hb.goals_count,
                    mode: hb.mode@,
                },
                status: hb.status@,
                mode: hb.mode@,
            },
            health: "active"@,
            registered_at: now_text,
            last_heartbeat: now_text,
            last_heartbeat_epoch: now,
            mesh_peers: views(hb.mesh_peers@),
        },
    }
}

/// `r` lists, once each, exactly the agents of `agents` that serve `skill`.
pub open spec fn skill_matches(agents: Map<Seq<char>, AgentRecordView>, skill: Seq<char>, r: Seq<AgentRecord>) -> bool {
    &&& forall|i: int|
        0 <= i < r.len() ==> #[trigger] agents.contains_key(r[i]@.info.agent_id)
            && r[i]@ == agents[r[i]@.info.agent_id] && serves_skill(r[i]@, skill)
    &&& forall|i: int, j: int| 0 <= i < j < r.len() ==> r[i]@.info.agent_id != r[j]@.info.agent_id
    &&& forall|k: Seq<char>|
        agents.contains_key(k) && serves_skill(agents[k], skill)
            ==> exists|i: int| 0 <= i < r.len() && #[trigger] r[i]@.info.agent_id == k
}

/// `r` lists, once each, exactly the agents of `agents`.
pub open spec fn lists_all(agents: Map<Seq<char>, AgentRecordView>, r: Seq<AgentRecord>) -> bool {
    &&& forall|i: int|
        0 <= i < r.len() ==> #[trigger] agents.contains_key(r[i]@.info.agent_id)
            && r[i]@ == agents[r[i]@.info.agent_id]
    &&& forall|i: int, j: int| 0 <= i < j < r.len() ==> r[i]@.info.agent_id != r[j]@.info.agent_id
    &&& forall|k: Seq<char>|
        agents.contains_key(k) ==> exists|i: int| 0 <= i < r.len() && #[trigger] r[i]@.info.agent_id == k
}

/// The views of a sequence of records.
pub open spec fn rec_views(s: Seq<AgentRecord>) -> Seq<AgentRecordView> {
    s.map_values(|a: AgentRecord| a@)
}

/// The records of `s` that serve `skill`, in order.
pub open spec fn serving(s: Seq<AgentRecordView>, skill: Seq<char>) -> Seq<AgentRecordView>
    decreases s.len(),
{
    if s.len() == 0 {
        Seq::empty()
    } else {
        let p = serving(s.drop_last(), skill);
        if serves_skill(s.last(), skill) {
            p.push(s.last())
        } else {
            p
        }
    }
}

/// No two records share an agent id.
pub open spec fn ids_distinct(s: Seq<AgentRecordView>) -> bool {
    forall|i: int, j: int| 0 <= i < j < s.len() ==> s[i].info.agent_id != s[j].info.agent_id
}

/// `serving` keeps exactly the serving records and keeps ids distinct.
pub proof fn lemma_serving(s: Seq<AgentRecordView>, skill: Seq<char>)
    ensures
        forall|x: AgentRecordView|
            #![trigger serving(s, skill).contains(x)]
            #![trigger s.contains(x)]
            serving(s, skill).contains(x) <==> (s.contains(x) && serves_skill(x, skill)),
        ids_distinct(s) ==> ids_distinct(serving(s, skill)),
    decreases s.len(),
{
    if s.len() > 0 {
        let d = s.drop_last();
        lemma_serving(d, skill);
        let p = serving(d, skill);
        assert forall|x: AgentRecordView|
            #![trigger serving(s, skill).contains(x)]
            #![trigger s.contains(x)]
            serving(s, skill).contains(x) <==> (s.contains(x) && serves_skill(x, skill)) by {
            if serving(s, skill).contains(x) {
                let a = choose|a: int| 0 <= a < serving(s, skill).len() && serving(s, skill)[a] == x;
                if a < p.len() {
                    assert(p[a] == x);
                    assert(p.contains(x));
                    let b = choose|b: int| 0 <= b < d.len() && d[b] == x;
                    assert(s[b] == x);
                } else {
                    assert(s[s.len() - 1] == x);
                }
            }
            if s.contains(x) && serves_skill(x, skill) {
                let a = choose|a: int| 0 <= a < s.len() && s[a] == x;
                if a < s.len() - 1 {
                    assert(d[a] == x);
                    assert(d.contains(x));
                    let b = choose|b: int| 0 <= b < p.len() && p[b] == x;
                    assert(serving(s, skill)[b] == x);
                } else {
                    assert(serving(s, skill)[serving(s, skill).len() - 1] == x);
                }
            }
        }
        if ids_distinct(s) {
            assert(ids_distinct(d));
            let r = serving(s, skill);
            assert forall|i: int, j: int| 0 <= i < j < r.len() implies r[i].info.agent_id != r[j].info.agent_id by {
                if j < p.len() {
                    assert(r[i] == p[i]);
                    assert(r[j] == p[j]);
                } else {
                    assert(r[i] == p[i]);
                    assert(p.contains(p[i]));
                    let b = choose|b: int| 0 <= b < d.len() && d[b] == p[i];
                    assert(s[b] == d[b]);
                    assert(r[j] == s[s.len() - 1]);
                }
            }
        }
    } else {
        assert(serving(s, skill) =~= Seq::<AgentRecordView>::empty());
    }
}

// ─── Registry state ──────────────────────────────────────────────────────

pub struct RegistryState {
    agents: dashmap::DashMap<String, AgentRecord>,
}

impl RegistryState {
    /// Well-formed: every record is stored under its agent id.
    pub closed spec fn wf(&self) -> bool {
        forall|k: Seq<char>| #[trigger] agent_table(self.agents).contains_key(k) ==> agent_table(self.agents)[k].info.agent_id == k
    }

    /// The agent records, by agent id.
    pub closed spec fn view(&self) -> Map<Seq<char>, AgentRecordView> {
        agent_table(self.agents)
    }

    pub fn new() -> (r: Self)
        ensures
            r.wf(),
            r.view() == Map::<Seq<char>, AgentRecordView>::empty(),
    {
        let r = RegistryState { agents: table_new() };
        assert(r.view() =~= Map::<Seq<char>, AgentRecordView>::empty());
        r
    }

    /// Stores a record under its agent id, replacing any record with that id.
    pub fn insert_record(&mut self, record: AgentRecord)
        requires
            old(self).wf(),
        ensures
            final(self).wf(),
            final(self).view() == old(self).view().insert(record@.info.agent_id, record@),
    {
        let key = record.info.agent_id.clone();
        table_insert(&mut self.agents, key, record);
    }

    /// All agents, each once, in no promised order.
    pub fn list(&self) -> (r: Vec<AgentRecord>)
        requires
            self.wf(),
        ensures
            lists_all(self.view(), r@),
    {
        let entries = table_entries(&self.agents);
        let mut out: Vec<AgentRecord> = Vec::new();
        let n = entries.len();
        for i in 0..n
            invariant
                n == entries@.len(),
                out@.len() == i,
                forall|j: int| 0 <= j < i ==> #[trigger] out@[j]@ == entries@[j].1@,
        {
            out.push(entries[i].1.clone());
        }
        proof {
            assert forall|i: int| 0 <= i < out@.len() implies #[trigger] self.view().contains_key(out@[i]@.info.agent_id)
                && out@[i]@ == self.view()[out@[i]@.info.agent_id] by {
                assert(out@[i]@ == entries@[i].1@);
                assert(agent_table(self.agents).contains_key(entries@[i].0@));
            }
            assert forall|i: int, j: int| 0 <= i < j < out@.len() implies out@[i]@.info.agent_id != out@[j]@.info.agent_id by {
                assert(out@[i]@ == entries@[i].1@);
                assert(out@[j]@ == entries@[j].1@);
                assert(agent_table(self.agents).contains_key(entries@[i].0@));
                assert(agent_table(self.agents).contains_key(entries@[j].0@));
            }
            assert forall|k: Seq<char>| self.view().contains_key(k) implies exists|i: int| 0 <= i < out@.len() && #[trigger] out@[i]@.info.agent_id == k by {
                let i = choose|i: int| 0 <= i < entries@.len() && #[trigger] entries@[i].0@ == k;
                assert(out@[i]@ == entries@[i].1@);
            }
        }
        out
    }

    /// The agent with the given id.
    pub fn get(&self, agent_id: &str) -> (r: Option<AgentRecord>)
        ensures
            match r {
                Some(a) => self.view().contains_key(agent_id@) && a@ == self.view()[agent_id@],
                None => !self.view().contains_key(agent_id@),
            },
    {
        table_get(&self.agents, agent_id)
    }

    /// The active agents that list `skill`, each once, in no promised order.
    pub fn find_by_skill(&self, skill: &str) -> (r: Vec<AgentRecord>)
        requires
            self.wf(),
        ensures
            skill_matches(self.view(), skill@, r@),
    {
        let all = self.list();
        let wanted: String = skill.to_owned();
        let mut out: Vec<AgentRecord> = Vec::new();
        let n = all.len();
        let mut i: usize = 0;
        while i < n
            invariant
                i <= n,
                n == all@.len(),
                wanted@ == skill@,
                rec_views(out@) == serving(rec_views(all@).take(i as int), skill@),
            decreases n - i,
        {
            let rec = &all[i];
            let active = str_eq(rec.health.as_str(), "active");
            let has = contains_string(rec.info.capabilities.skills.as_slice(), &wanted);
            proof {
                let t = rec_views(all@).take(i + 1);
                assert(t.drop_last() =~= rec_views(all@).take(i as int));
                assert(t.last() == rec@);
            }
            if active && has {
                out.push(rec.clone());
            }
            assert(rec_views(out@) =~= serving(rec_views(all@).take(i + 1), skill@));
            i = i + 1;
        }
        proof {
            let av = rec_views(all@);
            assert(av.take(n as int) =~= av);
            lemma_serving(av, skill@);
            let ov = rec_views(out@);
            assert(ov == serving(av, skill@));
            assert forall|j: int| 0 <= j < out@.len() implies #[trigger] self.view().contains_key(out@[j]@.info.agent_id)
                && out@[j]@ == self.view()[out@[j]@.info.agent_id] && serves_skill(out@[j]@, skill@) by {
                assert(ov[j] == out@[j]@);
                assert(ov.contains(out@[j]@));
                let a = choose|a: int| 0 <= a < av.len() && av[a] == out@[j]@;
                assert(av[a] == all@[a]@);
                assert(self.view().contains_key(all@[a]@.info.agent_id));
            }
            assert(ids_distinct(av)) by {
                assert forall|x: int, y: int| 0 <= x < y < av.len() implies av[x].info.agent_id != av[y].info.agent_id by {
                    assert(av[x] == all@[x]@);
                    assert(av[y] == all@[y]@);
                }
            }
            assert forall|x: int, y: int| 0 <= x < y < out@.len() implies out@[x]@.info.agent_id != out@[y]@.info.agent_id by {
                assert(ov[x] == out@[x]@);
                assert(ov[y] == out@[y]@);
            }
            assert forall|k: Seq<char>|
                self.view().contains_key(k) && serves_skill(self.view()[k], skill@)
                    implies exists|j: int| 0 <= j < out@.len() && #[trigger] out@[j]@.info.agent_id == k by {
                let a = choose|a: int| 0 <= a < all@.len() && #[trigger] all@[a]@.info.agent_id == k;
                assert(av[a] == all@[a]@);
                assert(av.contains(all@[a]@));
                assert(ov.contains(all@[a]@));
                let j = choose|j: int| 0 <= j < ov.len() && ov[j] == all@[a]@;
                assert(ov[j] == out@[j]@);
            }
        }
        out
    }

    /// One sweep of the health check at `now`: every agent's health becomes
    /// `health_at(now, last heartbeat)`.
    pub fn refresh_health(&mut self, now: u64)
        requires
            old(self).wf(),
        ensures
            final(self).wf(),
            final(self).view() == Map::new(
                |k: Seq<char>| old(self).view().contains_key(k),
                |k: Seq<char>| AgentRecordView { health: health_at(now, old(self).view()[k].last_heartbeat_epoch), ..old(self).view()[k] },
            ),
    {
        let ghost before = self.view();
        let entries = table_entries(&self.agents);
        let ghost keys = entries@.map_values(|e: (String, AgentRecord)| e.0@);
        proof {
            assert forall|a: int, b: int| 0 <= a < keys.len() && 0 <= b < keys.len() && a != b implies keys[a] != keys[b] by {
                if a < b {
                    assert(entries@[a].0@ != entries@[b].0@);
                } else {
                    assert(entries@[b].0@ != entries@[a].0@);
                }
            }
            assert forall|k: Seq<char>| before.contains_key(k) implies keys.contains(k) by {
                let a = choose|a: int| 0 <= a < entries@.len() && #[trigger] entries@[a].0@ == k;
                assert(keys[a] == k);
            }
        }
        let n = entries.len();
        let mut i: usize = 0;
        while i < n
            invariant
                i <= n,
                n == entries@.len(),
                keys.len() == n,
                forall|a: int| 0 <= a < n ==> #[trigger] keys[a] == entries@[a].0@,
                forall|a: int| 0 <= a < n ==> before.contains_key(#[trigger] keys[a]) && entries@[a].1@ == before[keys[a]],
                keys.no_duplicates(),
                forall|k: Seq<char>| before.contains_key(k) ==> keys.contains(k),
                forall|k: Seq<char>| #[trigger] before.contains_key(k) ==> before[k].info.agent_id == k,
                self.wf(),
                self.view() == Map::new(
                    |k: Seq<char>| before.contains_key(k),
                    |k: Seq<char>| if keys.take(i as int).contains(k) {
                        AgentRecordView { health: health_at(now, before[k].last_heartbeat_epoch), ..before[k] }
                    } else {
                        before[k]
                    },
                ),
            decreases n - i,
        {
            let key = &entries[i].0;
            let rec = &entries[i].1;
            let ghost k = keys[i as int];
            proof {
                lemma_take_push(keys, i as int);
                assert(!keys.take(i as int).contains(k)) by {
                    if keys.take(i as int).contains(k) {
                        let a = choose|a: int| 0 <= a < i && #[trigger] keys.take(i as int)[a] == k;
                        assert(keys[a] == keys[i as int]);
                    }
                }
            }
            let mut r = rec.clone();
            let last = r.last_heartbeat_epoch;
            if now >= last && now - last > 270_000 {
                r.health = "offline".to_owned();
            } else if now >= last && now - last > 90_000 {
                r.health = "stale".to_owned();
            } else {
                r.health = "active".to_owned();
            }
            table_insert(&mut self.agents, key.clone(), r);
            proof {
                assert(self.view() =~= Map::new(
                    |kk: Seq<char>| before.contains_key(kk),
                    |kk: Seq<char>| if keys.take(i + 1).contains(kk) {
                        AgentRecordView { health: health_at(now, before[kk].last_heartbeat_epoch), ..before[kk] }
                    } else {
                        before[kk]
                    },
                ));
            }
            i = i + 1;
        }
        proof {
            assert(keys.take(n as int) =~= keys);
            assert(self.view() =~= Map::new(
                |k: Seq<char>| before.contains_key(k),
                |k: Seq<char>| AgentRecordView { health: health_at(now, before[k].last_heartbeat_epoch), ..before[k] },
            ));
        }
    }

    /// Registers (or re-registers) an agent as active at `now`, with
    /// `now_text` as its registration and heartbeat time.
    pub fn register_agent_at(&mut self, info: AgentInfo, now_text: String, now: u64)
        requires
            old(self).wf(),
        ensures
            final(self).wf(),
            final(self).view() == old(self).view().insert(info@.agent_id, registered(info@, now_text@, now)),
    {
        let record = AgentRecord {
            info: info,
            health: "active".to_owned(),
            registered_at: now_text.clone(),
            last_heartbeat: now_text,
            last_heartbeat_epoch: now,
            mesh_peers: Vec::new(),
        };
        assert(views(record.mesh_peers@) =~= Seq::<Seq<char>>::empty());
        self.insert_record(record);
    }

    /// Registers (or re-registers) an agent as active, stamped with the
    /// current time.
    pub fn register_agent(&mut self, info: AgentInfo)
        requires
            old(self).wf(),
        ensures
            final(self).wf(),
            exists|now_text: Seq<char>, now: u64|
                read_from_millis_clock(now)
                    && final(self).view() == #[trigger] old(self).view().insert(info@.agent_id, registered(info@, now_text, now)),
    {
        let ghost v = info@;
        let now_text = now_rfc3339();
        let now = now_unix_millis();
        self.register_agent_at(info, now_text, now);
        assert(self.view() == old(self).view().insert(v.agent_id, registered(v, now_text@, now)));
    }

    /// Unregisters an agent; returns whether it was registered.
    pub fn delete_agent(&mut self, agent_id: &str) -> (r: bool)
        requires
            old(self).wf(),
        ensures
            final(self).wf(),
            r == old(self).view().contains_key(agent_id@),
            final(self).view() == old(self).view().remove(agent_id@),
    {
        table_remove(&mut self.agents, agent_id)
    }

    /// An active agent that lists `skill`, if there is one.
    pub fn route_by_skill(&self, skill: &str) -> (r: Option<AgentRecord>)
        requires
            self.wf(),
        ensures
            match r {
                Some(a) => self.view().contains_key(a@.info.agent_id) && a@ == self.view()[a@.info.agent_id]
                    && serves_skill(a@, skill@),
                None => forall|k: Seq<char>| #[trigger] self.view().contains_key(k) ==> !serves_skill(self.view()[k], skill@),
            },
    {
        let mut agents = self.find_by_skill(skill);
        if agents.len() == 0 {
            proof {
                assert forall|k: Seq<char>| #[trigger] self.view().contains_key(k) implies !serves_skill(self.view()[k], skill@) by {
                    if serves_skill(self.view()[k], skill@) {
                        let i = choose|i: int| 0 <= i < agents@.len() && #[trigger] agents@[i]@.info.agent_id == k;
                    }
                }
            }
            None
        } else {
            let ghost first = agents@[0];
            assert(self.view().contains_key(first@.info.agent_id));
            let a = agents.swap_remove(0);
            Some(a)
        }
    }
}

}

verus! {

/// What a heartbeat does to the registry and the hub at time `now`: the
/// agent's record is refreshed or created (`after_heartbeat`), and the
/// agent polls the hub for the pending tasks that it can take (`r`).
pub open spec fn heartbeat_outcome(
    reg_before: Map<Seq<char>, AgentRecordView>,
    reg_after: Map<Seq<char>, AgentRecordView>,
    hub_before: Map<Seq<char>, crate::registry::hub::TaskView>,
    hub_after: Map<Seq<char>, crate::registry::hub::TaskView>,
    hb: Heartbeat,
    now_text: Seq<char>,
    now: u64,
    r: Seq<Task>,
) -> bool {
    &&& reg_after == reg_before.insert(
        hb.agent_id@,
        after_heartbeat(
            if reg_before.contains_key(hb.agent_id@) { Some(reg_before[hb.agent_id@]) } else { None },
            hb,
            now_text,
            now,
        ),
    )
    &&& poll_outcome(hub_before, hub_after, hb.agent_id@, views(hb.skill_names@), now, r)
}

/// Receives a heartbeat at `now` (with `now_text` as its textual time):
/// upserts the agent's record and hands it the pending tasks that it can
/// take, which are returned.
pub fn heartbeat_at(
    registry: &mut RegistryState,
    hub: &mut HubState,
    hb: Heartbeat,
    now_text: String,
    now: u64,
) -> (r: Vec<Task>)
    requires
        old(registry).wf(),
        old(hub).wf(),
    ensures
        final(registry).wf(),
        final(hub).wf(),
        heartbeat_outcome(old(registry).view(), final(registry).view(), old(hub).view(), final(hub).view(), hb, now_text@, now, r@),
{
    match registry.get(hb.agent_id.as_str()) {
        Some(mut rec) => {
            let ghost prev = rec@;
            rec.last_heartbeat = now_text.clone();
            rec.last_heartbeat_epoch = now;
            rec.health = "active".to_owned();
            rec.info.hostname = hb.hostname.clone();
            rec.info.ip = hb.ip.clone();
            rec.info.port = hb.port;
            rec.info.status = hb.status.clone();
            rec.info.mode = hb.mode.clone();
            rec.info.capabilities.skills = copy_strings(&hb.skill_names);
            rec.info.capabilities.goals_count = hb.goals_count;
            if !hb.sidecar_peer_id.as_str().is_empty() {
                rec.info.sidecar_peer_id = hb.sidecar_peer_id.clone();
            }
            rec.mesh_peers = copy_strings(&hb.mesh_peers);
            assert(rec@ == after_heartbeat(Some(prev), hb, now_text@, now));
            registry.insert_record(rec);
        },
        None => {
            let info = AgentInfo {
                agent_id: hb.agent_id.clone(),
                hostname: hb.hostname.clone(),
                ip: hb.ip.clone(),
                port: hb.port,
                sidecar_peer_id: hb.sidecar_peer_id.clone(),
                capabilities: AgentCapabilities {
                    skills: copy_strings(&hb.skill_names),
                    mcp_servers: Vec::new(),
                    goals_count: hb.goals_count,
                    mode: hb.mode.clone(),
                },
                status: hb.status.clone(),
                mode: hb.mode.clone(),
            };
            assert(views(info.capabilities.mcp_servers@) =~= Seq::<Seq<char>>::empty());
            let rec = AgentRecord {
                info: info,
                health: "active".to_owned(),
                registered_at: now_text.clone(),
                last_heartbeat: now_text.clone(),
                last_heartbeat_epoch: now,
                mesh_peers: copy_strings(&hb.mesh_peers),
            };
            assert(rec@ == after_heartbeat(None, hb, now_text@, now));
            registry.insert_record(rec);
        },
    }
    hub.get_pending_for_agent_at(hb.agent_id.as_str(), hb.skill_names.as_slice(), now)
}

/// Receives a heartbeat, stamped with the current time: upserts the
/// agent's record and hands it the pending tasks that it can take.
pub fn heartbeat(registry: &mut RegistryState, hub: &mut HubState, hb: Heartbeat) -> (r: Vec<Task>)
    requires
        old(registry).wf(),
        old(hub).wf(),
    ensures
        final(registry).wf(),
        final(hub).wf(),
        exists|now_text: Seq<char>, now: u64|
            read_from_millis_clock(now)
                && #[trigger] heartbeat_outcome(old(registry).view(), final(registry).view(), old(hub).view(), final(hub).view(), hb, now_text, now, r@),
{
    let now_text = now_rfc3339();
    let now = now_unix_millis();
    let ghost t = now_text@;
    let r = heartbeat_at(registry, hub, hb, now_text, now);
    assert(read_from_millis_clock(now)
        && heartbeat_outcome(old(registry).view(), registry.view(), old(hub).view(), hub.view(), hb, t, now, r@));
    r
}

}

verus! {

/// Health is decided by the silence since the last heartbeat: active up to
/// 90 s, stale up to 270 s, offline after that (a heartbeat dated in the
/// future counts as no silence).
pub proof fn lemma_health_thresholds(now: u64, last: u64)
    ensures
        (health_at(now, last) == "active"@) <==> (now < last || now - last <= 90_000),
        (health_at(now, last) == "stale"@) <==> (now >= last && 90_000 < now - last <= 270_000),
        (health_at(now, last) == "offline"@) <==> (now >= last && now - last > 270_000),
{
    reveal_strlit("active");
    reveal_strlit("stale");
    reveal_strlit("offline");
    assert("active"@[0] != "stale"@[0]);
    assert("active"@[0] != "offline"@[0]);
    assert("stale"@[0] != "offline"@[0]);
}

/// After a heartbeat the agent is registered and active, its last
/// heartbeat is the heartbeat's time, it lists the heartbeat's skills and
/// the mesh peers its sidecar reported, and
/// an agent that was already registered keeps its registration time, its
/// id and its MCP servers.
pub proof fn lemma_heartbeat_registers(
    agents: Map<Seq<char>, AgentRecordView>,
    hb: Heartbeat,
    now_text: Seq<char>,
    now: u64,
)
    requires
        forall|k: Seq<char>| #[trigger] agents.contains_key(k) ==> agents[k].info.agent_id == k,
    ensures
        ({
            let prev = if agents.contains_key(hb.agent_id@) { Some(agents[hb.agent_id@]) } else { None };
            let after = agents.insert(hb.agent_id@, after_heartbeat(prev, hb, now_text, now));
            &&& after.contains_key(hb.agent_id@)
            &&& after[hb.agent_id@].info.agent_id == hb.agent_id@
            &&& after[hb.agent_id@].health == "active"@
            &&& after[hb.agent_id@].last_heartbeat_epoch == now
            &&& after[hb.agent_id@].info.capabilities.skills == views(hb.skill_names@)
            &&& after[hb.agent_id@].mesh_peers == views(hb.mesh_peers@)
            &&& agents.contains_key(hb.agent_id@) ==> after[hb.agent_id@].registered_at == agents[hb.agent_id@].registered_at
                && after[hb.agent_id@].info.capabilities.mcp_servers == agents[hb.agent_id@].info.capabilities.mcp_servers
            &&& forall|k: Seq<char>| #[trigger] after.contains_key(k) ==> after[k].info.agent_id == k
        }),
{
}

/// An agent that heartbeats stays active: a health sweep up to 90 s later,
/// by the same millisecond clock, still finds it active, and it is then
/// offered for every skill the heartbeat named.
pub proof fn lemma_heartbeat_keeps_agent_active(
    prev: Option<AgentRecordView>,
    hb: Heartbeat,
    now_text: Seq<char>,
    now: u64,
    later: u64,
    skill: Seq<char>,
)
    requires
        now <= later <= now + 90_000,
    ensures
        health_at(later, after_heartbeat(prev, hb, now_text, now).last_heartbeat_epoch) == "active"@,
        views(hb.skill_names@).contains(skill) ==> serves_skill(
            AgentRecordView {
                health: health_at(later, after_heartbeat(prev, hb, now_text, now).last_heartbeat_epoch),
                ..after_heartbeat(prev, hb, now_text, now)
            },
            skill,
        ),
{
}

/// A registered agent is active, and it is what a lookup of its id finds
/// until something else is stored under that id.
pub proof fn lemma_register_then_get(agents: Map<Seq<char>, AgentRecordView>, info: AgentInfoView, now_text: Seq<char>, now: u64)
    ensures
        agents.insert(info.agent_id, registered(info, now_text, now)).contains_key(info.agent_id),
        agents.insert(info.agent_id, registered(info, now_text, now))[info.agent_id].info == info,
        agents.insert(info.agent_id, registered(info, now_text, now))[info.agent_id].health == "active"@,
        agents.insert(info.agent_id, registered(info, now_text, now)).remove(info.agent_id) == agents.remove(info.agent_id),
{
    assert(agents.insert(info.agent_id, registered(info, now_text, now)).remove(info.agent_id) =~= agents.remove(info.agent_id));
}

}
