//! Mesh manager — tracks the WebRTC peer connections and DataChannels of
//! the full mesh.

use std::sync::Arc;
use vstd::prelude::*;
use webrtc::data_channel::RTCDataChannel;
use webrtc::peer_connection::RTCPeerConnection;
use crate::sidecar::protocol::{MeshMessage, mesh_json};
use crate::text::push_str;

verus! {

#[verifier::external_type_specification]
#[verifier::external_body]
pub struct ExRTCPeerConnection(RTCPeerConnection);

#[verifier::external_type_specification]
#[verifier::external_body]
pub struct ExRTCDataChannel(RTCDataChannel);

/// `Arc::clone` of a DataChannel handle: the same channel.
#[verifier::external_body]
fn clone_channel(dc: &Arc<RTCDataChannel>) -> (r: Arc<RTCDataChannel>)
    ensures
        r == *dc,
{
    Arc::clone(dc)
}

/// A connected peer in the mesh.
pub struct MeshPeer {
    pub peer_id: String,
    pub pc: Arc<RTCPeerConnection>,
    pub dc: Option<Arc<RTCDataChannel>>,
}

pub struct MeshPeerView {
    pub peer_id: Seq<char>,
    pub pc: Arc<RTCPeerConnection>,
    pub dc: Option<Arc<RTCDataChannel>>,
}

impl View for MeshPeer {
    type V = MeshPeerView;

    open spec fn view(&self) -> MeshPeerView {
        MeshPeerView { peer_id: self.peer_id@, pc: self.pc, dc: self.dc }
    }
}

// ─── The peer table ──────────────────────────────────────────────────────

/// The peers a `DashMap` holds, by key.
pub uninterp spec fn peer_table(m: dashmap::DashMap<String, MeshPeer>) -> Map<Seq<char>, MeshPeerView>;

/// `DashMap::new`: an empty map.
#[verifier::external_body]
fn peers_new() -> (r: dashmap::DashMap<String, MeshPeer>)
    ensures
        forall|k: Seq<char>| !peer_table(r).contains_key(k),
{
    dashmap::DashMap::new()
}

/// `DashMap::insert`: the key now maps to the peer.
#[verifier::external_body]
fn peers_insert(m: &mut dashmap::DashMap<String, MeshPeer>, key: String, peer: MeshPeer)
    ensures
        peer_table(*final(m)) == peer_table(*old(m)).insert(key@, peer@),
{
    m.insert(key, peer);
}

/// `DashMap::remove`: the key is gone; the removed peer's connection, if any.
#[verifier::external_body]
fn peers_remove(m: &mut dashmap::DashMap<String, MeshPeer>, key: &str) -> (r: Option<Arc<RTCPeerConnection>>)
    ensures
        peer_table(*final(m)) == peer_table(*old(m)).remove(key@),
        match r {
            Some(pc) => peer_table(*old(m)).contains_key(key@) && pc == peer_table(*old(m))[key@].pc,
            None => !peer_table(*old(m)).contains_key(key@),
        },
{
    m.remove(key).map(|(_, peer)| peer.pc)
}

/// `DashMap::get`: the connection of the peer under the key, if any.
#[verifier::external_body]
fn peers_get_pc(m: &dashmap::DashMap<String, MeshPeer>, key: &str) -> (r: Option<Arc<RTCPeerConnection>>)
    ensures
        match r {
            Some(pc) => peer_table(*m).contains_key(key@) && pc == peer_table(*m)[key@].pc,
            None => !peer_table(*m).contains_key(key@),
        },
{
    m.get(key).map(|p| Arc::clone(&p.pc))
}

/// `DashMap::iter` over the keys: every key exactly once, in no promised order.
#[verifier::external_body]
fn peers_keys(m: &dashmap::DashMap<String, MeshPeer>) -> (r: Vec<String>)
    ensures
        forall|i: int| 0 <= i < r@.len() ==> peer_table(*m).contains_key(#[trigger] r@[i]@),
        forall|i: int, j: int| 0 <= i < j < r@.len() ==> r@[i]@ != r@[j]@,
        forall|k: Seq<char>| peer_table(*m).contains_key(k) ==> exists|i: int| 0 <= i < r@.len() && #[trigger] r@[i]@ == k,
{
    m.iter().map(|e| e.key().clone()).collect()
}

// ─── The channel table ───────────────────────────────────────────────────

/// The DataChannels a `DashMap` holds, by peer id.
pub uninterp spec fn channel_table(m: dashmap::DashMap<String, Arc<RTCDataChannel>>) -> Map<Seq<char>, Arc<RTCDataChannel>>;

/// `DashMap::new`: an empty map.
#[verifier::external_body]
fn channels_new() -> (r: dashmap::DashMap<String, Arc<RTCDataChannel>>)
    ensures
        forall|k: Seq<char>| !channel_table(r).contains_key(k),
{
    dashmap::DashMap::new()
}

/// `DashMap::insert`: the key now maps to the channel.
#[verifier::external_body]
fn channels_insert(m: &mut dashmap::DashMap<String, Arc<RTCDataChannel>>, key: String, dc: Arc<RTCDataChannel>)
    ensures
        channel_table(*final(m)) == channel_table(*old(m)).insert(key@, dc),
{
    m.insert(key, dc);
}

/// `DashMap::remove`: the key is gone.
#[verifier::external_body]
fn channels_remove(m: &mut dashmap::DashMap<String, Arc<RTCDataChannel>>, key: &str)
    ensures
        channel_table(*final(m)) == channel_table(*old(m)).remove(key@),
{
    m.remove(key);
}

/// `DashMap::get`: the channel under the key, if any.
#[verifier::external_body]
fn channels_get(m: &dashmap::DashMap<String, Arc<RTCDataChannel>>, key: &str) -> (r: Option<Arc<RTCDataChannel>>)
    ensures
        match r {
            Some(dc) => channel_table(*m).contains_key(key@) && dc == channel_table(*m)[key@],
            None => !channel_table(*m).contains_key(key@),
        },
{
    m.get(key).map(|e| Arc::clone(e.value()))
}

/// `DashMap::contains_key`.
#[verifier::external_body]
fn channels_contains(m: &dashmap::DashMap<String, Arc<RTCDataChannel>>, key: &str) -> (r: bool)
    ensures
        r == channel_table(*m).contains_key(key@),
{
    m.contains_key(key)
}

/// `DashMap::iter`: every entry exactly once, in no promised order.
#[verifier::external_body]
fn channels_entries(m: &dashmap::DashMap<String, Arc<RTCDataChannel>>) -> (r: Vec<(String, Arc<RTCDataChannel>)>)
    ensures
        forall|i: int|
            0 <= i < r@.len() ==> channel_table(*m).contains_key(#[trigger] r@[i].0@)
                && r@[i].1 == channel_table(*m)[r@[i].0@],
        forall|i: int, j: int| 0 <= i < j < r@.len() ==> r@[i].0@ != r@[j].0@,
        forall|k: Seq<char>|
            channel_table(*m).contains_key(k) ==> exists|i: int| 0 <= i < r@.len() && #[trigger] r@[i].0@ == k,
{
    m.iter().map(|e| (e.key().clone(), Arc::clone(e.value()))).collect()
}

// ─── Mesh manager ────────────────────────────────────────────────────────

/// The connections of the peers of `m`.
pub open spec fn connections_of(m: Map<Seq<char>, MeshPeerView>) -> Set<Arc<RTCPeerConnection>> {
    Set::new(|pc: Arc<RTCPeerConnection>| exists|k: Seq<char>| #[trigger] m.contains_key(k) && m[k].pc == pc)
}

/// The error text for a peer without a DataChannel.
pub open spec fn no_channel_error(peer_id: Seq<char>) -> Seq<char> {
    "no channel for peer: "@ + peer_id
}

/// Manages the full mesh of WebRTC connections.
pub struct MeshManager {
    /// Our peer id.
    pub local_peer_id: String,
    /// peer_id → MeshPeer
    peers: dashmap::DashMap<String, MeshPeer>,
    /// peer_id → DataChannel (shortcut for sending)
    channels: dashmap::DashMap<String, Arc<RTCDataChannel>>,
}

impl MeshManager {
    /// Our peer id.
    pub closed spec fn local_id(&self) -> Seq<char> {
        self.local_peer_id@
    }

    /// The peers with a connection, by peer id.
    pub closed spec fn peers(&self) -> Map<Seq<char>, MeshPeerView> {
        peer_table(self.peers)
    }

    /// The DataChannels, by peer id.
    pub closed spec fn channels(&self) -> Map<Seq<char>, Arc<RTCDataChannel>> {
        channel_table(self.channels)
    }

    pub fn new(local_peer_id: String) -> (r: Self)
        ensures
            r.local_id() == local_peer_id@,
            r.peers() == Map::<Seq<char>, MeshPeerView>::empty(),
            r.channels() == Map::<Seq<char>, Arc<RTCDataChannel>>::empty(),
    {
        let r = MeshManager { local_peer_id, peers: peers_new(), channels: channels_new() };
        assert(r.peers() =~= Map::<Seq<char>, MeshPeerView>::empty());
        assert(r.channels() =~= Map::<Seq<char>, Arc<RTCDataChannel>>::empty());
        r
    }

    /// Our peer id.
    pub fn local_peer(&self) -> (r: &str)
        ensures
            r@ == self.local_id(),
    {
        self.local_peer_id.as_str()
    }

    /// Stores a peer connection (without a DataChannel yet).
    pub fn add_peer(&mut self, peer_id: &str, pc: Arc<RTCPeerConnection>)
        ensures
            final(self).local_id() == old(self).local_id(),
            final(self).peers() == old(self).peers().insert(peer_id@, MeshPeerView { peer_id: peer_id@, pc: pc, dc: None }),
            final(self).channels() == old(self).channels(),
    {
        let peer = MeshPeer { peer_id: peer_id.to_owned(), pc, dc: None };
        peers_insert(&mut self.peers, peer_id.to_owned(), peer);
    }

    /// Stores the DataChannel for a peer (and on its connection entry, when
    /// there is one; that entry is stored anew under the peer's id).
    pub fn set_channel(&mut self, peer_id: &str, dc: Arc<RTCDataChannel>)
        ensures
            final(self).local_id() == old(self).local_id(),
            final(self).channels() == old(self).channels().insert(peer_id@, dc),
            final(self).peers() == if old(self).peers().contains_key(peer_id@) {
                old(self).peers().insert(peer_id@, MeshPeerView { peer_id: peer_id@, pc: old(self).peers()[peer_id@].pc, dc: Some(dc) })
            } else {
                old(self).peers()
            },
    {
        let copy = clone_channel(&dc);
        channels_insert(&mut self.channels, peer_id.to_owned(), copy);
        match peers_get_pc(&self.peers, peer_id) {
            Some(pc) => {
                let peer = MeshPeer { peer_id: peer_id.to_owned(), pc, dc: Some(dc) };
                peers_insert(&mut self.peers, peer_id.to_owned(), peer);
            },
            None => {},
        }
    }

    /// Removes a peer: its connection entry and its DataChannel.
    pub fn remove_peer(&mut self, peer_id: &str)
        ensures
            final(self).local_id() == old(self).local_id(),
            final(self).peers() == old(self).peers().remove(peer_id@),
            final(self).channels() == old(self).channels().remove(peer_id@),
    {
        let _ = peers_remove(&mut self.peers, peer_id);
        channels_remove(&mut self.channels, peer_id);
    }

    /// The peer connection for a peer.
    pub fn get_pc(&self, peer_id: &str) -> (r: Option<Arc<RTCPeerConnection>>)
        ensures
            match r {
                Some(pc) => self.peers().contains_key(peer_id@) && pc == self.peers()[peer_id@].pc,
                None => !self.peers().contains_key(peer_id@),
            },
    {
        peers_get_pc(&self.peers, peer_id)
    }

    /// Prepares a message for a peer: its DataChannel and the message's
    /// JSON text; an error when the peer has no DataChannel. The caller
    /// transmits the text on the channel.
    pub fn send_to(&self, peer_id: &str, msg: &MeshMessage) -> (r: Result<(Arc<RTCDataChannel>, String), String>)
        ensures
            match r {
                Ok((dc, text)) => self.channels().contains_key(peer_id@) && dc == self.channels()[peer_id@]
                    && text@ == mesh_json(msg@),
                Err(e) => !self.channels().contains_key(peer_id@) && e@ == no_channel_error(peer_id@),
            },
    {
        match channels_get(&self.channels, peer_id) {
            Some(dc) => Ok((dc, msg.to_json())),
            None => {
                let mut e = String::new();
                push_str(&mut e, "no channel for peer: ");
                push_str(&mut e, peer_id);
                Err(e)
            },
        }
    }

    /// Prepares a broadcast: the message's JSON text and every DataChannel,
    /// once each, with its peer id. The caller transmits the text on each.
    pub fn broadcast(&self, msg: &MeshMessage) -> (r: (String, Vec<(String, Arc<RTCDataChannel>)>))
        ensures
            r.0@ == mesh_json(msg@),
            forall|i: int|
                0 <= i < r.1@.len() ==> self.channels().contains_key(#[trigger] r.1@[i].0@)
                    && r.1@[i].1 == self.channels()[r.1@[i].0@],
            forall|i: int, j: int| 0 <= i < j < r.1@.len() ==> r.1@[i].0@ != r.1@[j].0@,
            forall|k: Seq<char>|
                self.channels().contains_key(k) ==> exists|i: int| 0 <= i < r.1@.len() && #[trigger] r.1@[i].0@ == k,
    {
        let text = msg.to_json();
        let entries = channels_entries(&self.channels);
        let r = (text, entries);
        assert forall|k: Seq<char>|
            self.channels().contains_key(k) implies exists|i: int| 0 <= i < r.1@.len() && #[trigger] r.1@[i].0@ == k by {
            let i = choose|i: int| 0 <= i < entries@.len() && #[trigger] entries@[i].0@ == k;
            assert(r.1@[i].0@ == k);
        }
        r
    }

    /// The peers with a DataChannel, each once, in no promised order.
    pub fn connected_peers(&self) -> (r: Vec<String>)
        ensures
            forall|i: int| 0 <= i < r@.len() ==> self.channels().contains_key(#[trigger] r@[i]@),
            forall|i: int, j: int| 0 <= i < j < r@.len() ==> r@[i]@ != r@[j]@,
            forall|k: Seq<char>| self.channels().contains_key(k) ==> exists|i: int| 0 <= i < r@.len() && #[trigger] r@[i]@ == k,
    {
        let entries = channels_entries(&self.channels);
        let mut out: Vec<String> = Vec::new();
        let n = entries.len();
        let mut i: usize = 0;
        while i < n
            invariant
                i <= n,
                n == entries@.len(),
                out@.len() == i,
                forall|j: int| 0 <= j < i ==> #[trigger] out@[j]@ == entries@[j].0@,
            decreases n - i,
        {
            out.push(entries[i].0.clone());
            i = i + 1;
        }
        proof {
            assert forall|i: int| 0 <= i < out@.len() implies self.channels().contains_key(#[trigger] out@[i]@) by {
                assert(out@[i]@ == entries@[i].0@);
            }
            assert forall|i: int, j: int| 0 <= i < j < out@.len() implies out@[i]@ != out@[j]@ by {
                assert(out@[i]@ == entries@[i].0@);
                assert(out@[j]@ == entries@[j].0@);
            }
            assert forall|k: Seq<char>| self.channels().contains_key(k) implies exists|i: int| 0 <= i < out@.len() && #[trigger] out@[i]@ == k by {
                let i = choose|i: int| 0 <= i < entries@.len() && #[trigger] entries@[i].0@ == k;
                assert(out@[i]@ == entries@[i].0@);
            }
        }
        out
    }

    /// Removes every peer and every DataChannel, before a signaling
    /// reconnect; returns the removed connections, which the caller closes.
    pub fn clear_all_peers(&mut self) -> (r: Vec<Arc<RTCPeerConnection>>)
        ensures
            final(self).local_id() == old(self).local_id(),
            final(self).peers() == Map::<Seq<char>, MeshPeerView>::empty(),
            final(self).channels() == Map::<Seq<char>, Arc<RTCDataChannel>>::empty(),
            forall|i: int| 0 <= i < r@.len() ==> connections_of(old(self).peers()).contains(#[trigger] r@[i]),
            forall|k: Seq<char>| #[trigger] old(self).peers().contains_key(k) ==> r@.contains(old(self).peers()[k].pc),
            old(self).peers().dom().finite(),
            r@.len() == old(self).peers().dom().len(),
    {
        let ghost p0 = self.peers();
        let ghost c0 = self.channels();
        let ids = peers_keys(&self.peers);
        let mut closed: Vec<Arc<RTCPeerConnection>> = Vec::new();
        let n = ids.len();
        let mut i: usize = 0;
        while i < n
            invariant
                i <= n,
                n == ids@.len(),
                forall|a: int| 0 <= a < n ==> p0.contains_key(#[trigger] ids@[a]@),
                forall|a: int, b: int| 0 <= a < b < n ==> ids@[a]@ != ids@[b]@,
                forall|k: Seq<char>| p0.contains_key(k) ==> exists|a: int| 0 <= a < n && #[trigger] ids@[a]@ == k,
                self.local_id() == old(self).local_id(),
                self.peers() == p0.remove_keys(Set::new(|k: Seq<char>| exists|a: int| 0 <= a < i && #[trigger] ids@[a]@ == k)),
                self.channels() == c0.remove_keys(Set::new(|k: Seq<char>| exists|a: int| 0 <= a < i && #[trigger] ids@[a]@ == k)),
                closed@.len() == i,
                forall|j: int| 0 <= j < i ==> #[trigger] closed@[j] == p0[ids@[j]@].pc,
            decreases n - i,
        {
            let ghost done = Set::new(|k: Seq<char>| exists|a: int| 0 <= a < i && #[trigger] ids@[a]@ == k);
            let ghost done2 = Set::new(|k: Seq<char>| exists|a: int| 0 <= a < i + 1 && #[trigger] ids@[a]@ == k);
            let ghost k = ids@[i as int]@;
            assert(!done.contains(k)) by {
                if done.contains(k) {
                    let a = choose|a: int| 0 <= a < i && #[trigger] ids@[a]@ == k;
                }
            }
            assert(done2 =~= done.insert(k)) by {
                assert forall|x: Seq<char>| done2.contains(x) implies done.insert(k).contains(x) by {
                    let a = choose|a: int| 0 <= a < i + 1 && #[trigger] ids@[a]@ == x;
                    if a < i {
                        assert(done.contains(x));
                    }
                }
                assert forall|x: Seq<char>| done.insert(k).contains(x) implies done2.contains(x) by {
                    if x != k {
                        let a = choose|a: int| 0 <= a < i && #[trigger] ids@[a]@ == x;
                        assert(0 <= a < i + 1 && ids@[a]@ == x);
                    } else {
                        assert(ids@[i as int]@ == x);
                    }
                }
            }
            assert(self.peers().contains_key(k));
            let removed = peers_remove(&mut self.peers, ids[i].as_str());
            match removed {
                Some(pc) => closed.push(pc),
                None => {},
            }
            channels_remove(&mut self.channels, ids[i].as_str());
            proof {
                assert(self.peers() =~= p0.remove_keys(done2));
                assert(self.channels() =~= c0.remove_keys(done2));
            }
            i = i + 1;
        }
        proof {
            let done = Set::new(|k: Seq<char>| exists|a: int| 0 <= a < n && #[trigger] ids@[a]@ == k);
            assert(done =~= p0.dom());
            let keys = crate::text::views(ids@);
            assert(keys.no_duplicates()) by {
                assert forall|a: int, b: int| 0 <= a < keys.len() && 0 <= b < keys.len() && a != b implies keys[a] != keys[b] by {
                    if a < b {
                        assert(ids@[a]@ != ids@[b]@);
                    } else {
                        assert(ids@[b]@ != ids@[a]@);
                    }
                }
            }
            assert(keys.to_set() =~= p0.dom()) by {
                assert forall|k: Seq<char>| keys.to_set().contains(k) implies p0.dom().contains(k) by {
                    let a = choose|a: int| 0 <= a < keys.len() && keys[a] == k;
                    assert(ids@[a]@ == k);
                }
                assert forall|k: Seq<char>| p0.dom().contains(k) implies keys.to_set().contains(k) by {
                    let a = choose|a: int| 0 <= a < n && #[trigger] ids@[a]@ == k;
                    assert(keys[a] == k);
                }
            }
            keys.unique_seq_to_set();
            assert(self.peers() =~= Map::<Seq<char>, MeshPeerView>::empty());
            assert forall|k: Seq<char>| #[trigger] p0.contains_key(k) implies closed@.contains(p0[k].pc) by {
                let a = choose|a: int| 0 <= a < n && #[trigger] ids@[a]@ == k;
                assert(closed@[a] == p0[ids@[a]@].pc);
            }
            assert forall|j: int| 0 <= j < closed@.len() implies connections_of(p0).contains(#[trigger] closed@[j]) by {
                assert(p0.contains_key(ids@[j]@) && closed@[j] == p0[ids@[j]@].pc);
            }
        }
        self.channels = channels_new();
        assert(self.channels() =~= Map::<Seq<char>, Arc<RTCDataChannel>>::empty());
        closed
    }

    /// Whether a peer has a DataChannel.
    pub fn is_connected(&self, peer_id: &str) -> (r: bool)
        ensures
            r == self.channels().contains_key(peer_id@),
    {
        channels_contains(&self.channels, peer_id)
    }
}

}

verus! {

/// Mesh bookkeeping: a peer whose DataChannel was just stored is
/// connected, and a removed peer has neither a connection nor a channel.
pub proof fn lemma_mesh_bookkeeping(
    peers: Map<Seq<char>, MeshPeerView>,
    channels: Map<Seq<char>, Arc<RTCDataChannel>>,
    peer_id: Seq<char>,
    dc: Arc<RTCDataChannel>,
)
    ensures
        channels.insert(peer_id, dc).contains_key(peer_id),
        !peers.remove(peer_id).contains_key(peer_id),
        !channels.remove(peer_id).contains_key(peer_id),
{
}

}
