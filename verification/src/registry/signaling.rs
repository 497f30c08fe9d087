//! WebSocket signaling relay for WebRTC — supports an N:N mesh.

pub use crate::sidecar::protocol::SignalingMessage;

use vstd::prelude::*;
use crate::sidecar::protocol::signaling_json;
use crate::text::{json_string_array, push_json_string_array, push_str, str_eq, views};

verus! {

#[verifier::external_type_specification]
#[verifier::external_body]
#[verifier::reject_recursive_types(T)]
pub struct ExUnboundedSender<T>(tokio::sync::mpsc::UnboundedSender<T>);

/// The sender that a `DashMap` holds under each peer id.
pub uninterp spec fn peer_senders(m: dashmap::DashMap<String, tokio::sync::mpsc::UnboundedSender<String>>) -> Map<Seq<char>, tokio::sync::mpsc::UnboundedSender<String>>;

/// `DashMap::new`: an empty map.
#[verifier::external_body]
fn peers_new() -> (r: dashmap::DashMap<String, tokio::sync::mpsc::UnboundedSender<String>>)
    ensures
        forall|k: Seq<char>| !peer_senders(r).contains_key(k),
{
    dashmap::DashMap::new()
}

/// `DashMap::insert`: the peer id now has the given sender.
#[verifier::external_body]
fn peers_insert(
    m: &mut dashmap::DashMap<String, tokio::sync::mpsc::UnboundedSender<String>>,
    key: String,
    tx: tokio::sync::mpsc::UnboundedSender<String>,
)
    ensures
        peer_senders(*final(m)) == peer_senders(*old(m)).insert(key@, tx),
{
    m.insert(key, tx);
}

/// `DashMap::remove`: the peer id is gone.
#[verifier::external_body]
fn peers_remove(m: &mut dashmap::DashMap<String, tokio::sync::mpsc::UnboundedSender<String>>, key: &str)
    ensures
        peer_senders(*final(m)) == peer_senders(*old(m)).remove(key@),
{
    m.remove(key);
}

/// `DashMap::iter` over the keys: every peer id exactly once, in an order
/// that the map does not promise.
#[verifier::external_body]
fn peers_keys(m: &dashmap::DashMap<String, tokio::sync::mpsc::UnboundedSender<String>>) -> (r: Vec<String>)
    ensures
        forall|i: int| 0 <= i < r@.len() ==> peer_senders(*m).contains_key(#[trigger] r@[i]@),
        forall|i: int, j: int| 0 <= i < j < r@.len() ==> r@[i]@ != r@[j]@,
        forall|k: Seq<char>| peer_senders(*m).contains_key(k) ==> exists|i: int| 0 <= i < r@.len() && #[trigger] r@[i]@ == k,
{
    m.iter().map(|e| e.key().clone()).collect()
}

/// `DashMap::get` and `UnboundedSender::clone`: the sender registered under
/// the key, if any. A cloned sender is a handle on the same channel.
#[verifier::external_body]
fn peers_sender(
    m: &dashmap::DashMap<String, tokio::sync::mpsc::UnboundedSender<String>>,
    key: &str,
) -> (r: Option<tokio::sync::mpsc::UnboundedSender<String>>)
    ensures
        r == sender_of(peer_senders(*m), key@),
{
    m.get(key).map(|e| e.value().clone())
}

/// `UnboundedSender::send`: queues `text` on the channel; false when its
/// receiver has gone away. Whether it has is not known here.
#[verifier::external_body]
fn send_text(tx: &tokio::sync::mpsc::UnboundedSender<String>, text: String) -> (r: bool) {
    tx.send(text).is_ok()
}

/// The sender registered under `id`, if any.
pub open spec fn sender_of(
    senders: Map<Seq<char>, tokio::sync::mpsc::UnboundedSender<String>>,
    id: Seq<char>,
) -> Option<tokio::sync::mpsc::UnboundedSender<String>> {
    if senders.contains_key(id) {
        Some(senders[id])
    } else {
        None
    }
}

/// Outcome of handing a message to a peer's WebSocket sender.
pub enum Delivery {
    /// The message was queued for the peer.
    Sent,
    /// The peer is registered but its connection has gone away.
    ChannelClosed,
    /// No peer is registered under that id.
    NotConnected,
}

/// What handling one signaling message decided. A message to send comes
/// with the sender of the peer it goes to (`None` when that peer is not
/// connected); nothing is sent for the other outcomes.
pub enum SignalingOutcome {
    /// A `register`: the peer list answered to the registering peer, its
    /// JSON text, and that peer's sender.
    PeerList { peers: Vec<String>, message: String, to: Option<tokio::sync::mpsc::UnboundedSender<String>> },
    /// An `offer`, `answer` or `ice_candidate` to relay to `target`: the
    /// message's JSON text and the target's sender.
    Relayed { target: String, message: String, to: Option<tokio::sync::mpsc::UnboundedSender<String>> },
    /// An `offer`, `answer` or `ice_candidate` without a target.
    MissingTarget,
    /// A `heartbeat` (keep-alive): nothing to do.
    KeepAlive,
    /// A message of unknown type: ignored.
    UnknownType,
}

impl SignalingOutcome {
    /// Sends the outcome's message, if it has one (`None` otherwise), on the
    /// sender that came with it.
    pub fn deliver(self) -> (r: Option<Delivery>)
        ensures
            match self {
                SignalingOutcome::PeerList { to, .. } => r matches Some(d) && ((d is NotConnected) == (to is None)),
                SignalingOutcome::Relayed { to, .. } => r matches Some(d) && ((d is NotConnected) == (to is None)),
                _ => r is None,
            },
    {
        let (to, message) = match self {
            SignalingOutcome::PeerList { to, message, .. } => (to, message),
            SignalingOutcome::Relayed { to, message, .. } => (to, message),
            _ => return None,
        };
        match to {
            Some(tx) => if send_text(&tx, message) {
                Some(Delivery::Sent)
            } else {
                Some(Delivery::ChannelClosed)
            },
            None => Some(Delivery::NotConnected),
        }
    }
}

/// The JSON text of the answer to `register`.
pub open spec fn peer_list_json(peers: Seq<Seq<char>>) -> Seq<char> {
    "{\"payload\":{\"peers\":"@ + json_string_array(peers) + "},\"peer_id\":\"registry\",\"type\":\"peer_list\"}"@
}

/// A peer is authorized when it was approved through pairing or holds a
/// static API key.
pub open spec fn authorized(p: Seq<char>, approved: Seq<Seq<char>>, legacy: Seq<Seq<char>>) -> bool {
    approved.contains(p) || legacy.contains(p)
}

/// The peers that a `register` from `me` is answered with: nothing for an
/// unauthorized peer; otherwise every other connected authorized peer.
pub open spec fn visible_peers(
    connected: Set<Seq<char>>,
    me: Seq<char>,
    approved: Seq<Seq<char>>,
    legacy: Seq<Seq<char>>,
) -> Set<Seq<char>> {
    if authorized(me, approved, legacy) {
        connected.filter(|p: Seq<char>| p != me && authorized(p, approved, legacy))
    } else {
        Set::empty()
    }
}

/// Whether `msg_type` is one that is relayed to a target.
pub open spec fn is_relayed_type(t: Seq<char>) -> bool {
    t == "offer"@ || t == "answer"@ || t == "ice_candidate"@
}

/// What handling `msg` decides while `senders` are connected: a
/// `register` is answered, on the sender of the registering peer, with the
/// list of the peers it may see (each once); an `offer`, `answer` or
/// `ice_candidate` is relayed unchanged, on the sender of its target; a
/// `heartbeat` is a keep-alive; anything else is ignored.
pub open spec fn handled(
    senders: Map<Seq<char>, tokio::sync::mpsc::UnboundedSender<String>>,
    msg: SignalingMessage,
    approved: Seq<Seq<char>>,
    legacy: Seq<Seq<char>>,
    r: SignalingOutcome,
) -> bool {
    if msg.msg_type@ == "register"@ {
        match r {
            SignalingOutcome::PeerList { peers, message, to } => {
                &&& (forall|i: int, j: int| 0 <= i < j < peers@.len() ==> peers@[i]@ != peers@[j]@)
                &&& views(peers@).to_set() == visible_peers(senders.dom(), msg.peer_id@, approved, legacy)
                &&& message@ == peer_list_json(views(peers@))
                &&& to == sender_of(senders, msg.peer_id@)
            },
            _ => false,
        }
    } else if is_relayed_type(msg.msg_type@) {
        match msg.target_id {
            Some(t) => match r {
                SignalingOutcome::Relayed { target, message, to } => {
                    &&& target@ == t@
                    &&& message@ == signaling_json(msg@)
                    &&& to == sender_of(senders, t@)
                },
                _ => false,
            },
            None => r is MissingTarget,
        }
    } else if msg.msg_type@ == "heartbeat"@ {
        r is KeepAlive
    } else {
        r is UnknownType
    }
}

pub struct SignalingState {
    /// peer_id → sender for forwarding messages.
    peers: dashmap::DashMap<String, tokio::sync::mpsc::UnboundedSender<String>>,
}

impl SignalingState {
    /// The connected peers: the sender of each peer id.
    pub closed spec fn view(&self) -> Map<Seq<char>, tokio::sync::mpsc::UnboundedSender<String>> {
        peer_senders(self.peers)
    }

    pub fn new() -> (r: Self)
        ensures
            r.view() == Map::<Seq<char>, tokio::sync::mpsc::UnboundedSender<String>>::empty(),
    {
        let r = SignalingState { peers: peers_new() };
        assert(r.view() =~= Map::<Seq<char>, tokio::sync::mpsc::UnboundedSender<String>>::empty());
        r
    }

    /// Registers a peer's WebSocket sender.
    pub fn add_peer(&mut self, peer_id: &str, tx: tokio::sync::mpsc::UnboundedSender<String>)
        ensures
            final(self).view() == old(self).view().insert(peer_id@, tx),
    {
        peers_insert(&mut self.peers, peer_id.to_owned(), tx);
    }

    /// Removes a peer.
    pub fn remove_peer(&mut self, peer_id: &str)
        ensures
            final(self).view() == old(self).view().remove(peer_id@),
    {
        peers_remove(&mut self.peers, peer_id);
    }

    /// The connected peer ids, each once, in no promised order.
    pub fn connected_peers(&self) -> (r: Vec<String>)
        ensures
            forall|i: int| 0 <= i < r@.len() ==> self.view().contains_key(#[trigger] r@[i]@),
            forall|i: int, j: int| 0 <= i < j < r@.len() ==> r@[i]@ != r@[j]@,
            forall|k: Seq<char>| self.view().contains_key(k) ==> exists|i: int| 0 <= i < r@.len() && #[trigger] r@[i]@ == k,
    {
        peers_keys(&self.peers)
    }

    /// Handles an incoming signaling message: decides the answer to
    /// `register` (the peers the sender may see), the relay of `offer`,
    /// `answer` and `ice_candidate` to their target, and ignores the rest.
    /// The message to send comes back with the sender to send it on.
    ///
    /// Peers listed in `approved_peers` (paired) or `legacy_peers` (static
    /// API keys) are authorized; others get an empty peer list.
    pub fn handle_message(&self, msg: SignalingMessage, approved_peers: &[String], legacy_peers: &[String]) -> (r: SignalingOutcome)
        ensures
            handled(self.view(), msg, views(approved_peers@), views(legacy_peers@), r),
    {
        proof {
            reveal_strlit("register");
            reveal_strlit("offer");
            reveal_strlit("answer");
            reveal_strlit("ice_candidate");
            reveal_strlit("heartbeat");
        }
        let t = msg.msg_type.as_str();
        if str_eq(t, "register") {
            let ghost approved = views(approved_peers@);
            let ghost legacy = views(legacy_peers@);
            let mut peers: Vec<String> = Vec::new();
            if is_authorized(&msg.peer_id, approved_peers, legacy_peers) {
                let connected = self.connected_peers();
                let n = connected.len();
                let mut i: usize = 0;
                while i < n
                    invariant
                        i <= n,
                        n == connected@.len(),
                        authorized(msg.peer_id@, approved, legacy),
                        approved == views(approved_peers@),
                        legacy == views(legacy_peers@),
                        forall|a: int| 0 <= a < n ==> self.view().contains_key(#[trigger] connected@[a]@),
                        forall|a: int, b: int| 0 <= a < b < n ==> connected@[a]@ != connected@[b]@,
                        forall|j: int|
                            0 <= j < peers@.len() ==> exists|a: int| 0 <= a < i && #[trigger] connected@[a]@ == #[trigger] peers@[j]@,
                        forall|j: int, l: int| 0 <= j < l < peers@.len() ==> peers@[j]@ != peers@[l]@,
                        views(peers@).to_set() == Set::new(|p: Seq<char>|
                            (exists|a: int| 0 <= a < i && #[trigger] connected@[a]@ == p) && p != msg.peer_id@ && authorized(p, approved, legacy)),
                    decreases n - i,
                {
                    let p = &connected[i];
                    let ghost prev = peers@;
                    if *p != msg.peer_id && is_authorized(p, approved_peers, legacy_peers) {
                        peers.push(p.clone());
                        proof {
                            assert forall|j: int, l: int| 0 <= j < l < peers@.len() implies peers@[j]@ != peers@[l]@ by {
                                assert(peers@[j] == prev[j]);
                                if l < prev.len() {
                                    assert(peers@[l] == prev[l]);
                                } else {
                                    let a = choose|a: int| 0 <= a < i && #[trigger] connected@[a]@ == #[trigger] prev[j]@;
                                    assert(connected@[a]@ != connected@[i as int]@);
                                }
                            }
                        }
                    }
                    proof {
                        assert forall|j: int| 0 <= j < peers@.len() implies exists|a: int| 0 <= a < i + 1 && #[trigger] connected@[a]@ == #[trigger] peers@[j]@ by {
                            if j < prev.len() {
                                assert(peers@[j] == prev[j]);
                                let a = choose|a: int| 0 <= a < i && #[trigger] connected@[a]@ == #[trigger] prev[j]@;
                                assert(connected@[a]@ == peers@[j]@);
                            } else {
                                assert(connected@[i as int]@ == peers@[j]@);
                            }
                        }
                        let target = Set::new(|q: Seq<char>|
                            (exists|a: int| 0 <= a < i + 1 && #[trigger] connected@[a]@ == q) && q != msg.peer_id@ && authorized(q, approved, legacy));
                        assert forall|q: Seq<char>| #[trigger] views(peers@).to_set().contains(q) == target.contains(q) by {
                            let old_target = Set::new(|q: Seq<char>|
                                (exists|a: int| 0 <= a < i && #[trigger] connected@[a]@ == q) && q != msg.peer_id@ && authorized(q, approved, legacy));
                            assert(views(prev).to_set() == old_target);
                            if views(peers@).to_set().contains(q) {
                                let j = choose|j: int| 0 <= j < views(peers@).len() && views(peers@)[j] == q;
                                if j < prev.len() {
                                    assert(views(prev)[j] == q);
                                    assert(views(prev).to_set().contains(q));
                                    let a = choose|a: int| 0 <= a < i && #[trigger] connected@[a]@ == q;
                                    assert(connected@[a]@ == q);
                                } else {
                                    assert(connected@[i as int]@ == q);
                                }
                            }
                            if target.contains(q) {
                                let a = choose|a: int| 0 <= a < i + 1 && #[trigger] connected@[a]@ == q;
                                if a < i {
                                    assert(old_target.contains(q));
                                    let j = choose|j: int| 0 <= j < views(prev).len() && views(prev)[j] == q;
                                    assert(views(peers@)[j] == q);
                                } else {
                                    assert(views(peers@)[views(peers@).len() - 1] == q);
                                }
                            }
                        }
                        assert(views(peers@).to_set() =~= target);
                    }
                    i = i + 1;
                }
                proof {
                    let vis = visible_peers(self.view().dom(), msg.peer_id@, approved, legacy);
                    assert forall|q: Seq<char>| #[trigger] views(peers@).to_set().contains(q) == vis.contains(q) by {
                        if vis.contains(q) {
                            let a = choose|a: int| 0 <= a < connected@.len() && #[trigger] connected@[a]@ == q;
                        }
                    }
                    assert(views(peers@).to_set() =~= vis);
                }
            } else {
                assert(views(peers@).to_set() =~= visible_peers(self.view().dom(), msg.peer_id@, approved, legacy));
            }
            let mut message = String::new();
            push_str(&mut message, "{\"payload\":{\"peers\":");
            push_json_string_array(&mut message, &peers);
            push_str(&mut message, "},\"peer_id\":\"registry\",\"type\":\"peer_list\"}");
            assert(message@ =~= peer_list_json(views(peers@)));
            let to = peers_sender(&self.peers, msg.peer_id.as_str());
            SignalingOutcome::PeerList { peers, message, to }
        } else if str_eq(t, "offer") || str_eq(t, "answer") || str_eq(t, "ice_candidate") {
            match &msg.target_id {
                Some(target) => {
                    let message = msg.to_json();
                    let to = peers_sender(&self.peers, target.as_str());
                    SignalingOutcome::Relayed { target: target.clone(), message, to }
                },
                None => SignalingOutcome::MissingTarget,
            }
        } else if str_eq(t, "heartbeat") {
            SignalingOutcome::KeepAlive
        } else {
            SignalingOutcome::UnknownType
        }
    }

    /// Handles a message that arrived on the WebSocket of `authenticated`:
    /// a message that claims another sender is dropped (`None`).
    pub fn handle_from(
        &self,
        authenticated: &str,
        msg: SignalingMessage,
        approved_peers: &[String],
        legacy_peers: &[String],
    ) -> (r: Option<SignalingOutcome>)
        ensures
            (r is None) == (msg.peer_id@ != authenticated@),
            r matches Some(o) ==> handled(self.view(), msg, views(approved_peers@), views(legacy_peers@), o),
    {
        if str_eq(msg.peer_id.as_str(), authenticated) {
            Some(self.handle_message(msg, approved_peers, legacy_peers))
        } else {
            None
        }
    }
}

/// Whether `p` is approved or holds a static API key.
fn is_authorized(p: &String, approved_peers: &[String], legacy_peers: &[String]) -> (r: bool)
    ensures
        r == authorized(p@, views(approved_peers@), views(legacy_peers@)),
{
    crate::registry::hub::contains_string(approved_peers, p) || crate::registry::hub::contains_string(legacy_peers, p)
}

}

verus! {

/// Peer visibility is mutual among connected peers: when `a` is shown
/// `b`, then `b` is shown `a`; no peer is ever shown itself.
pub proof fn lemma_visibility_is_mutual(
    connected: Set<Seq<char>>,
    a: Seq<char>,
    b: Seq<char>,
    approved: Seq<Seq<char>>,
    legacy: Seq<Seq<char>>,
)
    requires
        connected.contains(a),
    ensures
        visible_peers(connected, a, approved, legacy).contains(b) ==> visible_peers(connected, b, approved, legacy).contains(a),
        !visible_peers(connected, a, approved, legacy).contains(a),
{
}

/// An unauthorized peer sees nobody, and nobody sees it.
pub proof fn lemma_unauthorized_is_isolated(
    connected: Set<Seq<char>>,
    a: Seq<char>,
    b: Seq<char>,
    approved: Seq<Seq<char>>,
    legacy: Seq<Seq<char>>,
)
    requires
        !authorized(a, approved, legacy),
    ensures
        visible_peers(connected, a, approved, legacy) == Set::<Seq<char>>::empty(),
        !visible_peers(connected, b, approved, legacy).contains(a),
{
    assert(visible_peers(connected, a, approved, legacy) =~= Set::<Seq<char>>::empty());
}

/// Who a registering peer sees: exactly the other connected peers that are
/// paired or hold an API key, provided it is itself paired or holds one. A
/// paired peer and an API-key peer therefore see each other.
pub proof fn lemma_register_sees_every_authorized_peer(
    connected: Set<Seq<char>>,
    me: Seq<char>,
    p: Seq<char>,
    approved: Seq<Seq<char>>,
    legacy: Seq<Seq<char>>,
)
    ensures
        visible_peers(connected, me, approved, legacy).contains(p) <==> {
            &&& approved.contains(me) || legacy.contains(me)
            &&& connected.contains(p)
            &&& p != me
            &&& approved.contains(p) || legacy.contains(p)
        },
{
}

}
