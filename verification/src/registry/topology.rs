//! Network topology — the mesh as the dashboard draws it.

use vstd::prelude::*;
use crate::registry::registry::{AgentRecord, AgentRecordView, RegistryState, copy_strings, lists_all, rec_views};
use crate::text::{str_eq, views};

verus! {

pub struct TopologyNode {
    pub agent_id: String,
    pub ip: String,
    pub port: u16,
    pub hostname: String,
    pub sidecar_peer_id: String,
    pub mode: String,
    pub skills_count: usize,
    pub health: String,
    /// Peer ids this agent's sidecar has open DataChannels with, as its
    /// last heartbeat reported them.
    pub mesh_peers: Vec<String>,
}

pub struct TopologyResponse {
    pub nodes: Vec<TopologyNode>,
    pub mesh_edges: Vec<MeshEdge>,
}

pub struct MeshEdge {
    pub from_peer: String,
    pub to_peer: String,
}

pub struct TopologyNodeView {
    pub agent_id: Seq<char>,
    pub ip: Seq<char>,
    pub port: u16,
    pub hostname: Seq<char>,
    pub sidecar_peer_id: Seq<char>,
    pub mode: Seq<char>,
    pub skills_count: nat,
    pub health: Seq<char>,
    pub mesh_peers: Seq<Seq<char>>,
}

impl View for TopologyNode {
    type V = TopologyNodeView;

    open spec fn view(&self) -> TopologyNodeView {
        TopologyNodeView {
            agent_id: self.agent_id@,
            ip: self.ip@,
            port: self.port,
            hostname: self.hostname@,
            sidecar_peer_id: self.sidecar_peer_id@,
            mode: self.mode@,
            skills_count: self.skills_count as nat,
            health: self.health@,
            mesh_peers: views(self.mesh_peers@),
        }
    }
}

impl View for MeshEdge {
    type V = (Seq<char>, Seq<char>);

    open spec fn view(&self) -> (Seq<char>, Seq<char>) {
        (self.from_peer@, self.to_peer@)
    }
}

/// An agent takes part in the mesh when it is active and runs a sidecar.
pub open spec fn in_mesh(a: AgentRecordView) -> bool {
    a.health == "active"@ && a.info.sidecar_peer_id.len() > 0
}

/// The sidecar peer ids of the agents that take part in the mesh, in order.
pub open spec fn mesh_ids(agents: Seq<AgentRecordView>) -> Seq<Seq<char>>
    decreases agents.len(),
{
    if agents.len() == 0 {
        Seq::empty()
    } else {
        let p = mesh_ids(agents.drop_last());
        if in_mesh(agents.last()) {
            p.push(agents.last().info.sidecar_peer_id)
        } else {
            p
        }
    }
}

/// The node drawn for agent `a`; its mesh peers are the peers its sidecar
/// reported open DataChannels with.
pub open spec fn node_for(a: AgentRecordView) -> TopologyNodeView {
    TopologyNodeView {
        agent_id: a.info.agent_id,
        ip: a.info.ip,
        port: a.info.port,
        hostname: a.info.hostname,
        sidecar_peer_id: a.info.sidecar_peer_id,
        mode: a.info.mode,
        skills_count: a.info.capabilities.skills.len(),
        health: a.health,
        mesh_peers: a.mesh_peers,
    }
}

/// The edges from `ids[i]` to every later id, in order.
pub open spec fn edge_row(ids: Seq<Seq<char>>, i: int) -> Seq<(Seq<char>, Seq<char>)> {
    ids.subrange(i + 1, ids.len() as int).map_values(|y: Seq<char>| (ids[i], y))
}

/// The rows of edges from `ids[0]`, …, `ids[i - 1]`.
pub open spec fn edge_rows(ids: Seq<Seq<char>>, i: int) -> Seq<(Seq<char>, Seq<char>)>
    decreases i,
{
    if i <= 0 {
        Seq::empty()
    } else {
        edge_rows(ids, i - 1) + edge_row(ids, i - 1)
    }
}

/// The full mesh over `ids`: one edge for each pair `i < j`, from `ids[i]`
/// to `ids[j]`, ordered by `i` and then by `j`.
pub open spec fn full_mesh(ids: Seq<Seq<char>>) -> Seq<(Seq<char>, Seq<char>)> {
    edge_rows(ids, ids.len() as int)
}

fn in_mesh_exec(a: &AgentRecord) -> (r: bool)
    ensures
        r == in_mesh(a@),
{
    str_eq(a.health.as_str(), "active") && !a.info.sidecar_peer_id.as_str().is_empty()
}

/// Lays out the mesh of `agents`: one node per agent, in order, with the
/// peers its sidecar reported open DataChannels with; and the full mesh of
/// edges between the active agents that run sidecars.
pub fn build_topology(agents: &Vec<AgentRecord>) -> (r: TopologyResponse)
    ensures
        r.nodes@.len() == agents@.len(),
        forall|i: int| 0 <= i < agents@.len() ==> #[trigger] r.nodes@[i]@ == node_for(agents@[i]@),
        r.mesh_edges@.map_values(|e: MeshEdge| e@) == full_mesh(mesh_ids(rec_views(agents@))),
{
    let ghost av = rec_views(agents@);
    let mut nodes: Vec<TopologyNode> = Vec::new();
    let mut ids: Vec<String> = Vec::new();
    let n = agents.len();
    let mut i: usize = 0;
    while i < n
        invariant
            i <= n,
            n == agents@.len(),
            av == rec_views(agents@),
            nodes@.len() == i,
            forall|j: int| 0 <= j < i ==> #[trigger] nodes@[j]@ == node_for(agents@[j]@),
            views(ids@) == mesh_ids(av.take(i as int)),
        decreases n - i,
    {
        let a = &agents[i];
        let node = TopologyNode {
            agent_id: a.info.agent_id.clone(),
            ip: a.info.ip.clone(),
            port: a.info.port,
            hostname: a.info.hostname.clone(),
            sidecar_peer_id: a.info.sidecar_peer_id.clone(),
            mode: a.info.mode.clone(),
            skills_count: a.info.capabilities.skills.len(),
            health: a.health.clone(),
            mesh_peers: copy_strings(&a.mesh_peers),
        };
        nodes.push(node);
        proof {
            let t = av.take(i + 1);
            assert(t.drop_last() =~= av.take(i as int));
            assert(t.last() == a@);
        }
        if in_mesh_exec(a) {
            ids.push(a.info.sidecar_peer_id.clone());
        }
        assert(views(ids@) =~= mesh_ids(av.take(i + 1)));
        i = i + 1;
    }
    assert(av.take(n as int) =~= av);
    let edges = full_mesh_edges(&ids);
    TopologyResponse { nodes, mesh_edges: edges }
}

fn full_mesh_edges(ids: &Vec<String>) -> (r: Vec<MeshEdge>)
    ensures
        r@.map_values(|e: MeshEdge| e@) == full_mesh(views(ids@)),
{
    let ghost v = views(ids@);
    let mut out: Vec<MeshEdge> = Vec::new();
    let n = ids.len();
    let mut i: usize = 0;
    while i < n
        invariant
            i <= n,
            n == ids@.len(),
            v == views(ids@),
            out@.map_values(|e: MeshEdge| e@) == edge_rows(v, i as int),
        decreases n - i,
    {
        let mut j: usize = i + 1;
        while j < n
            invariant
                i < n,
                i + 1 <= j <= n,
                n == ids@.len(),
                v == views(ids@),
                out@.map_values(|e: MeshEdge| e@) == edge_rows(v, i as int) + edge_row(v, i as int).take(j - i - 1),
            decreases n - j,
        {
            let ghost before = out@.map_values(|e: MeshEdge| e@);
            out.push(MeshEdge { from_peer: ids[i].clone(), to_peer: ids[j].clone() });
            proof {
                let row = edge_row(v, i as int);
                assert(row.take(j - i) =~= row.take(j - i - 1).push((v[i as int], v[j as int])));
                assert(out@.map_values(|e: MeshEdge| e@) =~= before.push((v[i as int], v[j as int])));
            }
            j = j + 1;
        }
        proof {
            let row = edge_row(v, i as int);
            assert(row.take(n - i - 1) =~= row);
            assert(edge_rows(v, i + 1) == edge_rows(v, i as int) + edge_row(v, i as int));
        }
        i = i + 1;
    }
    out
}

/// Lays out the registry's current agents (see `build_topology`); the
/// agents come in the order in which the registry lists them.
pub fn network_topology(registry: &RegistryState) -> (r: TopologyResponse)
    requires
        registry.wf(),
    ensures
        exists|agents: Seq<AgentRecord>|
            #[trigger] lists_all(registry.view(), agents) && r.nodes@.len() == agents.len()
                && (forall|i: int| 0 <= i < agents.len() ==> #[trigger] r.nodes@[i]@ == node_for(agents[i]@))
                && r.mesh_edges@.map_values(|e: MeshEdge| e@) == full_mesh(mesh_ids(rec_views(agents))),
{
    let agents = registry.list();
    let r = build_topology(&agents);
    assert(lists_all(registry.view(), agents@));
    r
}

}

verus! {

proof fn lemma_edge_rows(ids: Seq<Seq<char>>, i: int)
    requires
        0 <= i <= ids.len(),
    ensures
        2 * edge_rows(ids, i).len() == i * (2 * ids.len() - i - 1),
        forall|a: int, b: int|
            0 <= a < i && a < b < ids.len() ==> #[trigger] edge_rows(ids, i).contains((ids[a], ids[b])),
        forall|e: (Seq<char>, Seq<char>)|
            #[trigger] edge_rows(ids, i).contains(e) ==> exists|a: int, b: int|
                0 <= a < b < ids.len() && a < i && e == (ids[a], ids[b]),
    decreases i,
{
    if i > 0 {
        lemma_edge_rows(ids, i - 1);
        let n = ids.len() as int;
        let prev = edge_rows(ids, i - 1);
        let row = edge_row(ids, i - 1);
        assert(edge_rows(ids, i) == prev + row);
        assert(row.len() == n - i);
        assert(2 * (prev.len() + row.len()) == i * (2 * n - i - 1)) by (nonlinear_arith)
            requires
                2 * prev.len() == (i - 1) * (2 * n - (i - 1) - 1),
                row.len() == n - i;
        assert forall|a: int, b: int| 0 <= a < i && a < b < ids.len() implies #[trigger] edge_rows(ids, i).contains((ids[a], ids[b])) by {
            if a < i - 1 {
                assert(edge_rows(ids, i - 1).contains((ids[a], ids[b])));
                let k = choose|k: int| 0 <= k < prev.len() && prev[k] == (ids[a], ids[b]);
                assert(edge_rows(ids, i)[k] == (ids[a], ids[b]));
            } else {
                assert(row[b - i] == (ids[a], ids[b]));
                assert(edge_rows(ids, i)[prev.len() + b - i] == (ids[a], ids[b]));
            }
        }
        assert forall|e: (Seq<char>, Seq<char>)| #[trigger] edge_rows(ids, i).contains(e) implies exists|a: int, b: int|
            0 <= a < b < ids.len() && a < i && e == (ids[a], ids[b]) by {
            let k = choose|k: int| 0 <= k < edge_rows(ids, i).len() && edge_rows(ids, i)[k] == e;
            if k < prev.len() {
                assert(prev[k] == e);
                assert(prev.contains(e));
            } else {
                let j = k - prev.len();
                assert(row[j] == e);
                assert(e == (ids[i - 1], ids[i + j]));
            }
        }
    }
}

/// The full mesh over `n` peer ids has `n (n - 1) / 2` edges: one from
/// `ids[i]` to `ids[j]` for every `i < j`, and no others; so when the ids
/// are distinct no edge joins a peer to itself.
pub proof fn lemma_full_mesh(ids: Seq<Seq<char>>)
    ensures
        2 * full_mesh(ids).len() == ids.len() * (ids.len() - 1),
        forall|a: int, b: int| 0 <= a < b < ids.len() ==> #[trigger] full_mesh(ids).contains((ids[a], ids[b])),
        forall|e: (Seq<char>, Seq<char>)|
            #[trigger] full_mesh(ids).contains(e) ==> exists|a: int, b: int| 0 <= a < b < ids.len() && e == (ids[a], ids[b]),
        ids.no_duplicates() ==> forall|e: (Seq<char>, Seq<char>)| #[trigger] full_mesh(ids).contains(e) ==> e.0 != e.1,
{
    lemma_edge_rows(ids, ids.len() as int);
    assert(2 * full_mesh(ids).len() == ids.len() * (ids.len() - 1)) by (nonlinear_arith)
        requires
            2 * full_mesh(ids).len() == ids.len() * (2 * ids.len() - ids.len() - 1);
}

}
