//! Signaling client — what the sidecar does with the registry's signaling
//! messages, and how it paces reconnects.

use std::sync::Arc;
use vstd::prelude::*;
use webrtc::peer_connection::RTCPeerConnection;
use crate::sidecar::ipc::{JsonField, text_or_empty};
use crate::sidecar::mesh::MeshManager;
use crate::sidecar::protocol::SignalingMessage;
use crate::text::{push_str, str_eq};

verus! {

/// Token response from `/api/token`.
pub struct TokenResponse {
    pub token: String,
    pub peer_id: String,
    pub role: String,
}

/// The WebSocket URL with the token as its query.
pub fn signaling_ws_url(signaling_url: &str, token: &str) -> (r: String)
    ensures
        r@ == signaling_url@ + "?token="@ + token@,
{
    let mut out = String::new();
    push_str(&mut out, signaling_url);
    push_str(&mut out, "?token=");
    push_str(&mut out, token);
    out
}

/// The `register` message a sidecar sends first on a new connection.
pub fn register_message(peer_id: &str) -> (r: SignalingMessage)
    ensures
        r.msg_type@ == "register"@,
        r.peer_id@ == peer_id@,
        r.target_id is None,
        r.payload@ == "null"@,
{
    SignalingMessage { msg_type: "register".to_owned(), peer_id: peer_id.to_owned(), target_id: None, payload: "null".to_owned() }
}

// ─── Reconnect pacing ────────────────────────────────────────────────────

/// Initial reconnect backoff, in seconds.
pub const INITIAL_BACKOFF_SECS: u64 = 1;
/// Largest reconnect backoff, in seconds.
pub const MAX_BACKOFF_SECS: u64 = 30;

/// Reconnect pacing with exponential backoff: after the first disconnect
/// the sidecar reconnects at once; after a failed authentication or a later
/// disconnect it waits the current backoff, which then doubles up to 30 s.
/// A successful connection starts the pacing over.
pub struct ReconnectPolicy {
    backoff_secs: u64,
    attempt: u32,
}

impl ReconnectPolicy {
    /// The current backoff, in seconds.
    pub closed spec fn backoff(&self) -> u64 {
        self.backoff_secs
    }

    /// The number of attempts so far.
    pub closed spec fn attempts(&self) -> u32 {
        self.attempt
    }

    /// Well-formed: the backoff lies between 1 and 30 seconds.
    pub closed spec fn wf(&self) -> bool {
        1 <= self.backoff_secs <= 30
    }

    pub fn new() -> (r: Self)
        ensures
            r.wf(),
            r.backoff() == INITIAL_BACKOFF_SECS,
            r.attempts() == 0,
    {
        ReconnectPolicy { backoff_secs: INITIAL_BACKOFF_SECS, attempt: 0 }
    }

    /// The number of attempts so far.
    pub fn attempt(&self) -> (r: u32)
        ensures
            r == self.attempts(),
    {
        self.attempt
    }

    /// Authentication failed: returns how long to wait (the current
    /// backoff) before the next attempt, and doubles the backoff.
    pub fn after_auth_failure(&mut self) -> (wait_secs: u64)
        requires
            old(self).wf(),
            old(self).attempts() < u32::MAX,
        ensures
            final(self).wf(),
            wait_secs == old(self).backoff(),
            final(self).backoff() == next_backoff(old(self).backoff()),
            final(self).attempts() == old(self).attempts() + 1,
    {
        let wait = self.backoff_secs;
        self.backoff_secs = if self.backoff_secs * 2 < MAX_BACKOFF_SECS { self.backoff_secs * 2 } else { MAX_BACKOFF_SECS };
        self.attempt = self.attempt + 1;
        wait
    }

    /// The connection closed: returns how long to wait before reconnecting
    /// (nothing after the very first attempt; otherwise the current
    /// backoff, which then doubles).
    pub fn after_disconnect(&mut self) -> (wait_secs: u64)
        requires
            old(self).wf(),
            old(self).attempts() < u32::MAX,
        ensures
            final(self).wf(),
            old(self).attempts() == 0 ==> wait_secs == 0 && final(self).backoff() == old(self).backoff(),
            old(self).attempts() != 0 ==> wait_secs == old(self).backoff()
                && final(self).backoff() == next_backoff(old(self).backoff()),
            final(self).attempts() == old(self).attempts() + 1,
    {
        let wait = if self.attempt == 0 {
            0
        } else {
            let w = self.backoff_secs;
            self.backoff_secs = if self.backoff_secs * 2 < MAX_BACKOFF_SECS { self.backoff_secs * 2 } else { MAX_BACKOFF_SECS };
            w
        };
        self.attempt = self.attempt + 1;
        wait
    }

    /// A connection came up and registered with the signaling server: the
    /// pacing starts over, so the end of this connection is followed by an
    /// immediate reconnect and later failures wait 1 s, 2 s, 4 s, …
    pub fn after_connected(&mut self)
        ensures
            final(self).wf(),
            final(self).backoff() == INITIAL_BACKOFF_SECS,
            final(self).attempts() == 0,
    {
        self.backoff_secs = INITIAL_BACKOFF_SECS;
        self.attempt = 0;
    }
}

/// The backoff after `b`: doubled, at most 30 seconds.
pub open spec fn next_backoff(b: u64) -> u64 {
    if b * 2 < 30 {
        (b * 2) as u64
    } else {
        30
    }
}

// ─── Incoming signaling messages ─────────────────────────────────────────

/// An incoming signaling message with the payload fields the sidecar uses.
pub struct IncomingSignal {
    pub msg_type: String,
    pub peer_id: String,
    /// `payload.peers` when it is an array: each element's string, if it is one.
    pub peers: Option<Vec<Option<String>>>,
    /// `payload.sdp`.
    pub sdp: JsonField,
    /// `payload.candidate`.
    pub candidate: JsonField,
    /// `payload.sdpMid`.
    pub sdp_mid: JsonField,
    /// `payload.sdpMLineIndex` when it is a non-negative integer.
    pub sdp_mline_index: Option<u64>,
}

/// What the sidecar does for a signaling message.
pub enum SignalAction {
    /// Start connections (as the offerer) to these peers, in order.
    Initiate { peers: Vec<String> },
    /// Answer the offer `sdp` from `from`.
    AcceptOffer { from: String, sdp: String },
    /// Apply the answer `sdp` from `from` to its connection `pc`.
    ApplyAnswer { from: String, sdp: String, pc: Arc<RTCPeerConnection> },
    /// Add the remote ICE candidate from `from` to its connection `pc`.
    AddCandidate {
        from: String,
        pc: Arc<RTCPeerConnection>,
        candidate: String,
        sdp_mid: Option<String>,
        sdp_mline_index: Option<u16>,
    },
    /// Nothing to do (no usable session description, or no connection to
    /// the sending peer).
    Ignore,
    /// A message type the sidecar does not handle.
    Unhandled { msg_type: String },
}

/// The views of a list of optional strings.
pub open spec fn opt_views(v: Seq<Option<String>>) -> Seq<Option<Seq<char>>> {
    v.map_values(|o: Option<String>| match o {
        Some(s) => Some(s@),
        None => None,
    })
}

/// The listed peers to connect to: the strings that are neither this
/// sidecar nor already connected, in order.
pub open spec fn peers_to_initiate(
    listed: Seq<Option<Seq<char>>>,
    local: Seq<char>,
    connected: Set<Seq<char>>,
) -> Seq<Seq<char>>
    decreases listed.len(),
{
    if listed.len() == 0 {
        Seq::empty()
    } else {
        let p = peers_to_initiate(listed.drop_last(), local, connected);
        match listed.last() {
            Some(s) => if s != local && !connected.contains(s) {
                p.push(s)
            } else {
                p
            },
            None => p,
        }
    }
}

fn initiate_list(listed: &Vec<Option<String>>, local: &str, mesh: &MeshManager) -> (r: Vec<String>)
    ensures
        crate::text::views(r@) == peers_to_initiate(opt_views(listed@), local@, mesh.channels().dom()),
{
    let mut out: Vec<String> = Vec::new();
    let n = listed.len();
    let mut i: usize = 0;
    while i < n
        invariant
            i <= n,
            n == listed@.len(),
            crate::text::views(out@) == peers_to_initiate(opt_views(listed@).take(i as int), local@, mesh.channels().dom()),
        decreases n - i,
    {
        proof {
            let t = opt_views(listed@).take(i + 1);
            assert(t.drop_last() =~= opt_views(listed@).take(i as int));
            assert(t.last() == opt_views(listed@)[i as int]);
        }
        match &listed[i] {
            Some(pid) => {
                if !str_eq(pid.as_str(), local) && !mesh.is_connected(pid.as_str()) {
                    out.push(pid.clone());
                }
            },
            None => {},
        }
        assert(crate::text::views(out@) =~= peers_to_initiate(opt_views(listed@).take(i + 1), local@, mesh.channels().dom()));
        i = i + 1;
    }
    assert(opt_views(listed@).take(n as int) =~= opt_views(listed@));
    out
}

/// Decides what to do with a signaling message from the registry:
/// `peer_list` starts connections to the listed peers that are neither
/// this sidecar nor connected; `offer` is answered; `answer` and
/// `ice_candidate` go to the sending peer's connection, when there is one.
pub fn handle_signaling_message(msg: IncomingSignal, local_peer_id: &str, mesh: &MeshManager) -> (r: SignalAction)
    ensures
        msg.msg_type@ == "peer_list"@ ==> (r matches SignalAction::Initiate { peers } && crate::text::views(peers@)
            == match msg.peers {
                Some(v) => peers_to_initiate(opt_views(v@), local_peer_id@, mesh.channels().dom()),
                None => Seq::<Seq<char>>::empty(),
            }),
        msg.msg_type@ == "offer"@ ==> match msg.sdp {
            JsonField::Text(sdp) => r matches SignalAction::AcceptOffer { from, sdp: s } && from@ == msg.peer_id@ && s@ == sdp@,
            _ => r is Ignore,
        },
        msg.msg_type@ == "answer"@ ==> match msg.sdp {
            JsonField::Text(sdp) => if mesh.peers().contains_key(msg.peer_id@) {
                r matches SignalAction::ApplyAnswer { from, sdp: s, pc } && from@ == msg.peer_id@ && s@ == sdp@
                    && pc == mesh.peers()[msg.peer_id@].pc
            } else {
                r is Ignore
            },
            _ => r is Ignore,
        },
        msg.msg_type@ == "ice_candidate"@ ==> if mesh.peers().contains_key(msg.peer_id@) {
            r matches SignalAction::AddCandidate { from, pc, candidate, sdp_mid, sdp_mline_index }
                && from@ == msg.peer_id@ && pc == mesh.peers()[msg.peer_id@].pc
                && candidate@ == text_or_empty(msg.candidate)
                && sdp_mid == match msg.sdp_mid { JsonField::Text(s) => Some(s), _ => None }
                && sdp_mline_index == match msg.sdp_mline_index { Some(n) => Some(n as u16), None => None }
        } else {
            r is Ignore
        },
        msg.msg_type@ != "peer_list"@ && msg.msg_type@ != "offer"@ && msg.msg_type@ != "answer"@
            && msg.msg_type@ != "ice_candidate"@ ==> (r matches SignalAction::Unhandled { msg_type } && msg_type@ == msg.msg_type@),
{
    proof {
        reveal_strlit("peer_list");
        reveal_strlit("offer");
        reveal_strlit("answer");
        reveal_strlit("ice_candidate");
        assert("peer_list"@[0] != "offer"@[0]);
        assert("peer_list"@[0] != "answer"@[0]);
        assert("peer_list"@[0] != "ice_candidate"@[0]);
        assert("offer"@[0] != "answer"@[0]);
        assert("offer"@[0] != "ice_candidate"@[0]);
        assert("answer"@[0] != "ice_candidate"@[0]);
    }
    let t = msg.msg_type.as_str();
    if str_eq(t, "peer_list") {
        match &msg.peers {
            Some(listed) => SignalAction::Initiate { peers: initiate_list(listed, local_peer_id, mesh) },
            None => {
                let peers: Vec<String> = Vec::new();
                assert(crate::text::views(peers@) =~= Seq::<Seq<char>>::empty());
                SignalAction::Initiate { peers }
            },
        }
    } else if str_eq(t, "offer") {
        match msg.sdp {
            JsonField::Text(sdp) => SignalAction::AcceptOffer { from: msg.peer_id, sdp },
            _ => SignalAction::Ignore,
        }
    } else if str_eq(t, "answer") {
        match msg.sdp {
            JsonField::Text(sdp) => match mesh.get_pc(msg.peer_id.as_str()) {
                Some(pc) => SignalAction::ApplyAnswer { from: msg.peer_id, sdp, pc },
                None => SignalAction::Ignore,
            },
            _ => SignalAction::Ignore,
        }
    } else if str_eq(t, "ice_candidate") {
        match mesh.get_pc(msg.peer_id.as_str()) {
            Some(pc) => {
                let candidate = match msg.candidate {
                    JsonField::Text(c) => c,
                    _ => String::new(),
                };
                let sdp_mid = match msg.sdp_mid {
                    JsonField::Text(s) => Some(s),
                    _ => None,
                };
                let sdp_mline_index = match msg.sdp_mline_index {
                    Some(n) => Some(#[verifier::truncate] (n as u16)),
                    None => None,
                };
                SignalAction::AddCandidate { from: msg.peer_id, pc, candidate, sdp_mid, sdp_mline_index }
            },
            None => SignalAction::Ignore,
        }
    } else {
        SignalAction::Unhandled { msg_type: msg.msg_type }
    }
}

}

verus! {

/// The backoff after `k` consecutive waits, starting from the initial one.
pub open spec fn backoff_after(k: nat) -> u64
    decreases k,
{
    if k == 0 {
        INITIAL_BACKOFF_SECS
    } else {
        next_backoff(backoff_after((k - 1) as nat))
    }
}

/// The backoff never shrinks and never exceeds 30 s; starting from 1 s it
/// runs 1, 2, 4, 8, 16 and then stays at 30.
pub proof fn lemma_backoff_schedule(b: u64, k: nat)
    requires
        1 <= b <= 30,
    ensures
        b <= next_backoff(b) <= 30,
        1 <= backoff_after(k) <= 30,
        backoff_after(0) == 1 && backoff_after(1) == 2 && backoff_after(2) == 4,
        backoff_after(3) == 8 && backoff_after(4) == 16,
        k >= 5 ==> backoff_after(k) == 30,
    decreases k,
{
    reveal_with_fuel(backoff_after, 6);
    if k > 0 {
        lemma_backoff_schedule(b, (k - 1) as nat);
    }
}

/// The peers a `peer_list` starts connections to: each is a listed string,
/// is not this sidecar and has no DataChannel yet; and every such listed
/// string is among them.
pub proof fn lemma_initiates_only_new_peers(
    listed: Seq<Option<Seq<char>>>,
    local: Seq<char>,
    connected: Set<Seq<char>>,
)
    ensures
        forall|i: int| 0 <= i < peers_to_initiate(listed, local, connected).len() ==> {
            let p = #[trigger] peers_to_initiate(listed, local, connected)[i];
            &&& p != local
            &&& !connected.contains(p)
            &&& listed.contains(Some(p))
        },
        forall|s: Seq<char>|
            listed.contains(Some(s)) && s != local && !connected.contains(s)
                ==> #[trigger] peers_to_initiate(listed, local, connected).contains(s),
    decreases listed.len(),
{
    if listed.len() > 0 {
        let front = listed.drop_last();
        lemma_initiates_only_new_peers(front, local, connected);
        let r = peers_to_initiate(listed, local, connected);
        let rf = peers_to_initiate(front, local, connected);
        assert forall|i: int| 0 <= i < r.len() implies {
            let p = #[trigger] r[i];
            &&& p != local
            &&& !connected.contains(p)
            &&& listed.contains(Some(p))
        } by {
            if i < rf.len() {
                assert(r[i] == rf[i]);
                let j = choose|j: int| 0 <= j < front.len() && front[j] == Some(rf[i]);
                assert(listed[j] == front[j]);
            } else {
                assert(listed[listed.len() - 1] == Some(r[i]));
            }
        }
        assert forall|s: Seq<char>|
            listed.contains(Some(s)) && s != local && !connected.contains(s) implies #[trigger] r.contains(s) by {
            let j = choose|j: int| 0 <= j < listed.len() && listed[j] == Some(s);
            if j < listed.len() - 1 {
                assert(front[j] == Some(s));
                assert(rf.contains(s));
                let k = choose|k: int| 0 <= k < rf.len() && rf[k] == s;
                assert(r[k] == s);
            } else {
                assert(r[r.len() - 1] == s);
            }
        }
    }
}

/// Over any run of doublings from the initial backoff (what successive
/// `after_auth_failure` calls, and `after_disconnect` calls after the first
/// attempt, do), the `i`-th backoff is `backoff_after(i)`.
pub proof fn lemma_backoff_sequence(bs: Seq<u64>)
    requires
        bs.len() > 0,
        bs[0] == INITIAL_BACKOFF_SECS,
        forall|i: int| 0 <= i < bs.len() - 1 ==> #[trigger] bs[i + 1] == next_backoff(bs[i]),
    ensures
        forall|i: int| 0 <= i < bs.len() ==> #[trigger] bs[i] == backoff_after(i as nat),
    decreases bs.len(),
{
    if bs.len() > 1 {
        let front = bs.drop_last();
        assert forall|i: int| 0 <= i < front.len() - 1 implies #[trigger] front[i + 1] == next_backoff(front[i]) by {
            assert(bs[i + 1] == next_backoff(bs[i]));
        }
        lemma_backoff_sequence(front);
        assert forall|i: int| 0 <= i < bs.len() implies #[trigger] bs[i] == backoff_after(i as nat) by {
            if i < bs.len() - 1 {
                assert(front[i] == backoff_after(i as nat));
            } else {
                let j = i - 1;
                assert(bs[j + 1] == next_backoff(bs[j]));
                assert(front[i - 1] == backoff_after((i - 1) as nat));
            }
        }
    }
}

}
