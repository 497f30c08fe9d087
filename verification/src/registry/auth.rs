//! Authentication: API keys → JWT, and TURN/ICE server configuration.

use vstd::prelude::*;
use crate::clock::{now_unix_secs, read_from_secs_clock};
use jsonwebtoken::{decode, DecodingKey, Validation};
use serde_json::Value;
use crate::text::{decimal, digit_char, json_string, push_decimal, push_json_string, push_str, str_eq, views};

verus! {

/// JWT claims.
pub struct Claims {
    /// The peer id.
    pub sub: String,
    pub role: String,
    pub exp: usize,
    pub iat: usize,
}

/// API key entry.
pub struct ApiKeyEntry {
    pub peer_id: String,
    pub role: String,
}

impl View for ApiKeyEntry {
    type V = (Seq<char>, Seq<char>);

    open spec fn view(&self) -> (Seq<char>, Seq<char>) {
        (self.peer_id@, self.role@)
    }
}

impl Clone for ApiKeyEntry {
    fn clone(&self) -> (r: Self)
        ensures
            r@ == self@,
    {
        ApiKeyEntry { peer_id: self.peer_id.clone(), role: self.role.clone() }
    }
}

// ─── Outside computations ────────────────────────────────────────────────

/// The HS256 JSON Web Token that `jsonwebtoken::encode` produces, with the
/// default header, for the claims `sub`, `role`, `exp`, `iat` and the given
/// secret.
pub uninterp spec fn jwt_hs256(sub: Seq<char>, role: Seq<char>, exp: usize, iat: usize, secret: Seq<char>) -> Seq<char>;

/// `jsonwebtoken::encode` with the default header (HS256) and an HMAC key
/// made from the secret's bytes; the claims go in as a JSON object. It
/// succeeds: the key's family matches the header's algorithm, a JSON object
/// of strings and integers always serializes, and HMAC signing cannot fail.
/// Decoding the token with the same secret gives its claims back.
#[verifier::external_body]
fn jwt_encode(claims: &Claims, secret: &str) -> (r: Result<String, String>)
    ensures
        r is Ok,
        jwt_hs256(claims.sub@, claims.role@, claims.exp, claims.iat, secret@) == r->Ok_0@,
        jwt_hs256_claims(r->Ok_0@, secret@) == Some((claims.sub@, claims.role@, claims.exp, claims.iat)),
{
    let mut body = serde_json::Map::new();
    body.insert("sub".to_string(), serde_json::Value::from(claims.sub.as_str()));
    body.insert("role".to_string(), serde_json::Value::from(claims.role.as_str()));
    body.insert("exp".to_string(), serde_json::Value::from(claims.exp));
    body.insert("iat".to_string(), serde_json::Value::from(claims.iat));
    let key = jsonwebtoken::EncodingKey::from_secret(secret.as_bytes());
    jsonwebtoken::encode(&jsonwebtoken::Header::default(), &body, &key).map_err(|e| e.to_string())
}

/// The claims `(sub, role, exp, iat)` that `jsonwebtoken::decode` with the
/// default validation reads from `token` when its HS256 signature checks out
/// under `secret`; `None` for a token it refuses at any time (a bad
/// signature or encoding, another algorithm, a missing or ill-typed claim).
pub uninterp spec fn jwt_hs256_claims(token: Seq<char>, secret: Seq<char>) -> Option<(Seq<char>, Seq<char>, usize, usize)>;

/// `jsonwebtoken::decode` with the default validation (HS256, `exp`
/// required and checked against the clock with a minute's leeway) and an
/// HMAC key made from the secret's bytes; the claims are read from the
/// decoded JSON object. Whether an expired token is refused depends on the
/// clock, so a success is tied to the claims and only a refusal at any time
/// is tied to an error.
#[verifier::external_body]
fn jwt_decode(token: &str, secret: &str) -> (r: Result<Claims, String>)
    ensures
        r matches Ok(c) ==> jwt_hs256_claims(token@, secret@) == Some((c.sub@, c.role@, c.exp, c.iat)),
        jwt_hs256_claims(token@, secret@) is None ==> r is Err,
{
    let key = DecodingKey::from_secret(secret.as_bytes());
    let c = decode::<serde_json::Map<String, Value>>(token, &key, &Validation::default()).map_err(|e| e.to_string())?.claims;
    let text = |k: &str| c.get(k)?.as_str().map(str::to_owned);
    let num = |k: &str| usize::try_from(c.get(k)?.as_u64()?).ok();
    match (text("sub"), text("role"), num("exp"), num("iat")) {
        (Some(sub), Some(role), Some(exp), Some(iat)) => Ok(Claims { sub, role, exp, iat }),
        _ => Err("invalid claims".to_owned()),
    }
}

/// The HMAC-SHA1 tag of the UTF-8 bytes of `msg` under the UTF-8 bytes of `key`.
pub uninterp spec fn hmac_sha1(key: Seq<char>, msg: Seq<char>) -> Seq<u8>;

/// `Hmac::<Sha1>::new_from_slice`, `update` and `finalize`: the HMAC-SHA1
/// tag, 20 bytes long (HMAC accepts keys of any length).
#[verifier::external_body]
fn hmac_sha1_tag(key: &str, msg: &str) -> (r: Vec<u8>)
    ensures
        r@ == hmac_sha1(key@, msg@),
        r@.len() == 20,
{
    let mut mac = <hmac::Hmac<sha1::Sha1> as hmac::Mac>::new_from_slice(key.as_bytes())
        .expect("HMAC accepts keys of any size");
    hmac::Mac::update(&mut mac, msg.as_bytes());
    hmac::Mac::finalize(mac).into_bytes().to_vec()
}

/// The character of the standard Base64 alphabet for the 6-bit value `v`.
pub open spec fn base64_char(v: int) -> char {
    if v < 26 {
        (65 + v) as char
    } else if v < 52 {
        (97 + v - 26) as char
    } else if v < 62 {
        (48 + v - 52) as char
    } else if v == 62 {
        '+'
    } else {
        '/'
    }
}

/// The standard (padded) Base64 encoding of `bytes` (RFC 4648, section 4):
/// each group of three bytes becomes four characters; a last group of one
/// or two bytes is padded with `=`.
pub open spec fn base64_standard(bytes: Seq<u8>) -> Seq<char>
    decreases bytes.len(),
{
    if bytes.len() == 0 {
        Seq::empty()
    } else if bytes.len() == 1 {
        let a = bytes[0] as int;
        seq![base64_char(a / 4), base64_char((a % 4) * 16), '=', '=']
    } else if bytes.len() == 2 {
        let a = bytes[0] as int;
        let b = bytes[1] as int;
        seq![base64_char(a / 4), base64_char((a % 4) * 16 + b / 16), base64_char((b % 16) * 4), '=']
    } else {
        let a = bytes[0] as int;
        let b = bytes[1] as int;
        let c = bytes[2] as int;
        seq![base64_char(a / 4), base64_char((a % 4) * 16 + b / 16), base64_char((b % 16) * 4 + c / 64), base64_char(c % 64)]
            + base64_standard(bytes.subrange(3, bytes.len() as int))
    }
}

/// `base64::engine::general_purpose::STANDARD.encode`; it panics only when
/// the padded output length, four characters per started group of three
/// bytes, does not fit in a `usize`.
#[verifier::external_body]
fn base64_encode(bytes: &[u8]) -> (r: String)
    requires
        (bytes@.len() + 2) / 3 * 4 <= usize::MAX,
    ensures
        r@ == base64_standard(bytes@),
{
    base64::Engine::encode(&base64::engine::general_purpose::STANDARD, bytes)
}

// ─── API keys ────────────────────────────────────────────────────────────

/// The key table that a list of entries describes; a later entry for the
/// same key replaces an earlier one.
pub open spec fn key_map(entries: Seq<(String, ApiKeyEntry)>) -> Map<Seq<char>, (Seq<char>, Seq<char>)>
    decreases entries.len(),
{
    if entries.len() == 0 {
        Map::empty()
    } else {
        key_map(entries.drop_last()).insert(entries.last().0@, entries.last().1@)
    }
}

/// The keys that a development registry starts with.
pub open spec fn default_keys() -> Map<Seq<char>, (Seq<char>, Seq<char>)> {
    map!["ak_dev_001"@ => ("agent-001"@, "agent"@)]
}

pub struct AuthState {
    secret: String,
    api_keys: Vec<(String, ApiKeyEntry)>,
}

impl AuthState {
    /// Well-formed: no key is listed twice.
    pub closed spec fn wf(&self) -> bool {
        forall|i: int, j: int| 0 <= i < j < self.api_keys@.len() ==> self.api_keys@[i].0@ != self.api_keys@[j].0@
    }

    /// The API keys: key → (peer id, role).
    pub closed spec fn keys(&self) -> Map<Seq<char>, (Seq<char>, Seq<char>)> {
        key_map(self.api_keys@)
    }

    /// The token signing secret.
    pub closed spec fn secret_view(&self) -> Seq<char> {
        self.secret@
    }

    /// An authority with the development key `ak_dev_001` (peer
    /// `agent-001`, role `agent`), what a registry without a key file uses.
    pub fn new(secret: &str) -> (r: Self)
        ensures
            r.wf(),
            r.keys() == default_keys(),
            r.secret_view() == secret@,
    {
        let r = AuthState { secret: secret.to_owned(), api_keys: default_key_list() };
        proof {
            reveal_strlit("ak_dev_001");
            assert(key_map(r.api_keys@.drop_last()) =~= Map::<Seq<char>, (Seq<char>, Seq<char>)>::empty());
            assert(r.keys() =~= default_keys());
        }
        r
    }

    /// An authority with the keys read from a key file, or with the
    /// development key when no key file could be read (`None`).
    pub fn from_loaded_keys(secret: &str, loaded: Option<Vec<(String, ApiKeyEntry)>>) -> (r: Self)
        ensures
            r.wf(),
            r.keys() == match loaded {
                Some(v) => key_map(v@),
                None => default_keys(),
            },
            r.secret_view() == secret@,
    {
        match loaded {
            Some(v) => {
                let list = dedup_keys(v);
                AuthState { secret: secret.to_owned(), api_keys: list }
            },
            None => Self::new(secret),
        }
    }

    /// The token signing secret.
    pub fn secret(&self) -> (r: &str)
        ensures
            r@ == self.secret_view(),
    {
        self.secret.as_str()
    }

    /// The entry for an API key.
    pub fn lookup_api_key(&self, key: &str) -> (r: Option<ApiKeyEntry>)
        requires
            self.wf(),
        ensures
            match r {
                Some(e) => self.keys().contains_key(key@) && e@ == self.keys()[key@],
                None => !self.keys().contains_key(key@),
            },
    {
        let n = self.api_keys.len();
        let mut i: usize = 0;
        while i < n
            invariant
                i <= n,
                n == self.api_keys@.len(),
                self.wf(),
                forall|j: int| 0 <= j < i ==> self.api_keys@[j].0@ != key@,
            decreases n - i,
        {
            if str_eq(self.api_keys[i].0.as_str(), key) {
                proof { lemma_key_map_at(self.api_keys@, i as int); }
                return Some(self.api_keys[i].1.clone());
            }
            i = i + 1;
        }
        proof { lemma_key_map_absent(self.api_keys@, key@); }
        None
    }

    /// The peer ids that have static API keys, each once.
    pub fn api_key_peer_ids(&self) -> (r: Vec<String>)
        requires
            self.wf(),
        ensures
            forall|i: int, j: int| 0 <= i < j < r@.len() ==> r@[i]@ != r@[j]@,
            forall|p: Seq<char>|
                views(r@).contains(p) <==> exists|k: Seq<char>| #[trigger] self.keys().contains_key(k) && self.keys()[k].0 == p,
    {
        let mut out: Vec<String> = Vec::new();
        let n = self.api_keys.len();
        let mut i: usize = 0;
        while i < n
            invariant
                i <= n,
                n == self.api_keys@.len(),
                self.wf(),
                forall|a: int, b: int| 0 <= a < b < out@.len() ==> out@[a]@ != out@[b]@,
                forall|p: Seq<char>|
                    views(out@).contains(p) <==> exists|j: int| 0 <= j < i && #[trigger] self.api_keys@[j].1.peer_id@ == p,
            decreases n - i,
        {
            let pid = &self.api_keys[i].1.peer_id;
            let ghost prev = out@;
            if !crate::registry::hub::contains_string(out.as_slice(), pid) {
                out.push(pid.clone());
                proof {
                    assert forall|a: int, b: int| 0 <= a < b < out@.len() implies out@[a]@ != out@[b]@ by {
                        if b == prev.len() {
                            assert(views(prev)[a] == prev[a]@);
                        } else {
                            assert(out@[a] == prev[a]);
                            assert(out@[b] == prev[b]);
                        }
                    }
                }
            }
            proof {
                assert forall|p: Seq<char>|
                    views(out@).contains(p) <==> exists|j: int| 0 <= j < i + 1 && #[trigger] self.api_keys@[j].1.peer_id@ == p by {
                    if views(out@).contains(p) {
                        let a = choose|a: int| 0 <= a < views(out@).len() && views(out@)[a] == p;
                        if a < prev.len() {
                            assert(views(prev)[a] == p);
                            assert(views(prev).contains(p));
                        } else {
                            assert(self.api_keys@[i as int].1.peer_id@ == p);
                        }
                    }
                    if exists|j: int| 0 <= j < i + 1 && #[trigger] self.api_keys@[j].1.peer_id@ == p {
                        let j = choose|j: int| 0 <= j < i + 1 && #[trigger] self.api_keys@[j].1.peer_id@ == p;
                        if j < i {
                            assert(views(prev).contains(p));
                            let a = choose|a: int| 0 <= a < views(prev).len() && views(prev)[a] == p;
                            assert(views(out@)[a] == p);
                        } else if views(prev).contains(p) {
                            let a = choose|a: int| 0 <= a < views(prev).len() && views(prev)[a] == p;
                            assert(views(out@)[a] == p);
                        } else {
                            assert(views(out@)[views(out@).len() - 1] == p);
                        }
                    }
                }
            }
            i = i + 1;
        }
        proof {
            assert forall|p: Seq<char>|
                views(out@).contains(p) <==> exists|k: Seq<char>| #[trigger] self.keys().contains_key(k) && self.keys()[k].0 == p by {
                if views(out@).contains(p) {
                    let j = choose|j: int| 0 <= j < n && #[trigger] self.api_keys@[j].1.peer_id@ == p;
                    lemma_key_map_at(self.api_keys@, j);
                    assert(self.keys().contains_key(self.api_keys@[j].0@));
                }
                if exists|k: Seq<char>| #[trigger] self.keys().contains_key(k) && self.keys()[k].0 == p {
                    let k = choose|k: Seq<char>| #[trigger] self.keys().contains_key(k) && self.keys()[k].0 == p;
                    let j = lemma_key_map_source(self.api_keys@, k);
                    assert(self.api_keys@[j].1.peer_id@ == p);
                }
            }
        }
        out
    }
}

fn default_key_list() -> (r: Vec<(String, ApiKeyEntry)>)
    ensures
        r@.len() == 1,
        r@[0].0@ == "ak_dev_001"@,
        r@[0].1@ == ("agent-001"@, "agent"@),
{
    let mut v: Vec<(String, ApiKeyEntry)> = Vec::new();
    v.push(("ak_dev_001".to_owned(), ApiKeyEntry { peer_id: "agent-001".to_owned(), role: "agent".to_owned() }));
    v
}

/// In a list without repeated keys, the table maps each listed key to its entry.
proof fn lemma_key_map_at(entries: Seq<(String, ApiKeyEntry)>, i: int)
    requires
        0 <= i < entries.len(),
        forall|a: int, b: int| 0 <= a < b < entries.len() ==> entries[a].0@ != entries[b].0@,
    ensures
        key_map(entries).contains_key(entries[i].0@),
        key_map(entries)[entries[i].0@] == entries[i].1@,
    decreases entries.len(),
{
    if i < entries.len() - 1 {
        lemma_key_map_at(entries.drop_last(), i);
    }
}

/// A key that no entry lists is not in the table.
proof fn lemma_key_map_absent(entries: Seq<(String, ApiKeyEntry)>, k: Seq<char>)
    requires
        forall|j: int| 0 <= j < entries.len() ==> entries[j].0@ != k,
    ensures
        !key_map(entries).contains_key(k),
    decreases entries.len(),
{
    if entries.len() > 0 {
        lemma_key_map_absent(entries.drop_last(), k);
    }
}

/// Every key of the table is listed by some entry.
proof fn lemma_key_map_source(entries: Seq<(String, ApiKeyEntry)>, k: Seq<char>) -> (j: int)
    requires
        key_map(entries).contains_key(k),
        forall|a: int, b: int| 0 <= a < b < entries.len() ==> entries[a].0@ != entries[b].0@,
    ensures
        0 <= j < entries.len(),
        entries[j].0@ == k,
        key_map(entries)[k] == entries[j].1@,
    decreases entries.len(),
{
    if entries.last().0@ == k {
        (entries.len() - 1) as int
    } else {
        lemma_key_map_source(entries.drop_last(), k)
    }
}

/// The position of `key` in `entries`, if it is listed.
fn position_of_key(entries: &Vec<(String, ApiKeyEntry)>, key: &String) -> (r: Option<usize>)
    ensures
        match r {
            Some(j) => j < entries@.len() && entries@[j as int].0@ == key@,
            None => forall|a: int| 0 <= a < entries@.len() ==> entries@[a].0@ != key@,
        },
{
    let n = entries.len();
    let mut j: usize = 0;
    while j < n
        invariant
            j <= n,
            n == entries@.len(),
            forall|a: int| 0 <= a < j ==> entries@[a].0@ != key@,
        decreases n - j,
    {
        if entries[j].0 == *key {
            return Some(j);
        }
        j = j + 1;
    }
    None
}

/// The entries with repeated keys folded, a later entry replacing the
/// earlier one in place.
fn dedup_keys(v: Vec<(String, ApiKeyEntry)>) -> (r: Vec<(String, ApiKeyEntry)>)
    ensures
        forall|i: int, j: int| 0 <= i < j < r@.len() ==> r@[i].0@ != r@[j].0@,
        key_map(r@) == key_map(v@),
{
    let mut out: Vec<(String, ApiKeyEntry)> = Vec::new();
    let n = v.len();
    let mut i: usize = 0;
    while i < n
        invariant
            i <= n,
            n == v@.len(),
            forall|a: int, b: int| 0 <= a < b < out@.len() ==> out@[a].0@ != out@[b].0@,
            key_map(out@) == key_map(v@.take(i as int)),
        decreases n - i,
    {
        let key = v[i].0.clone();
        let entry = v[i].1.clone();
        let pos = position_of_key(&out, &key);
        let ghost prev = out@;
        if let Some(j) = pos {
            out.set(j, (key, entry));
            proof {
                assert forall|a: int, b: int| 0 <= a < b < out@.len() implies out@[a].0@ != out@[b].0@ by {
                    if a != j && b != j {
                        assert(out@[a] == prev[a]);
                        assert(out@[b] == prev[b]);
                    } else if a == j {
                        assert(out@[b] == prev[b]);
                    } else {
                        assert(out@[a] == prev[a]);
                    }
                }
                lemma_key_map_replace(prev, j as int, out@);
            }
        } else {
            out.push((key, entry));
            proof {
                assert forall|a: int, b: int| 0 <= a < b < out@.len() implies out@[a].0@ != out@[b].0@ by {
                    assert(out@[a] == prev[a]);
                    if b < prev.len() {
                        assert(out@[b] == prev[b]);
                    }
                }
                assert(out@.drop_last() =~= prev);
            }
        }
        proof {
            let t = v@.take(i + 1);
            assert(t.drop_last() =~= v@.take(i as int));
            assert(t.last() == v@[i as int]);
            assert(key_map(out@) =~= key_map(v@.take(i + 1)));
        }
        i = i + 1;
    }
    assert(v@.take(n as int) =~= v@);
    out
}

/// Replacing the entry at `j` in a list without repeated keys by one with
/// the same key updates that key in the table.
proof fn lemma_key_map_replace(prev: Seq<(String, ApiKeyEntry)>, j: int, next: Seq<(String, ApiKeyEntry)>)
    requires
        0 <= j < prev.len(),
        next.len() == prev.len(),
        next[j].0@ == prev[j].0@,
        forall|a: int| 0 <= a < prev.len() && a != j ==> next[a] == prev[a],
        forall|a: int, b: int| 0 <= a < b < prev.len() ==> prev[a].0@ != prev[b].0@,
    ensures
        key_map(next) == key_map(prev).insert(next[j].0@, next[j].1@),
    decreases prev.len(),
{
    if j == prev.len() - 1 {
        assert(next.drop_last() =~= prev.drop_last());
        assert(key_map(next) =~= key_map(prev).insert(next[j].0@, next[j].1@));
    } else {
        lemma_key_map_replace(prev.drop_last(), j, next.drop_last());
        assert(prev.last().0@ != next[j].0@);
        assert(key_map(next) =~= key_map(prev).insert(next[j].0@, next[j].1@));
    }
}

}

verus! {

// ─── Tokens ──────────────────────────────────────────────────────────────

/// Five minutes (300 s) after `now`, wrapping around past `usize::MAX` as
/// unsigned machine arithmetic does.
pub open spec fn token_expiry(now: usize) -> usize {
    if now + 300 <= usize::MAX {
        (now + 300) as usize
    } else {
        (now + 300 - usize::MAX - 1) as usize
    }
}

/// The claims of a token issued at `now` (seconds) for `peer_id` with
/// `role`: it expires five minutes later.
pub fn claims_at(peer_id: &str, role: &str, now: usize) -> (r: Claims)
    ensures
        r.sub@ == peer_id@,
        r.role@ == role@,
        r.iat == now,
        r.exp == token_expiry(now),
{
    let exp = if now <= usize::MAX - 300 { now + 300 } else { now - (usize::MAX - 299) };
    Claims { sub: peer_id.to_owned(), role: role.to_owned(), iat: now, exp }
}

/// Access granted by a token exchange.
pub struct TokenGrant {
    pub token: String,
    pub peer_id: String,
    pub role: String,
}

/// Why a token exchange was refused.
pub enum ExchangeError {
    /// No valid API key or device token (HTTP 401).
    Unauthorized,
    /// The token could not be issued (HTTP 500); `exchange_token` never
    /// answers so, since issuing cannot fail.
    Internal,
}

/// The JSON body of a granted exchange (keys in sorted order).
pub open spec fn grant_json(token: Seq<char>, peer_id: Seq<char>, role: Seq<char>) -> Seq<char> {
    "{\"peer_id\":"@ + json_string(peer_id) + ",\"role\":"@ + json_string(role) + ",\"token\":"@
        + json_string(token) + "}"@
}

impl TokenGrant {
    /// The JSON response body.
    pub fn to_json(&self) -> (r: String)
        ensures
            r@ == grant_json(self.token@, self.peer_id@, self.role@),
    {
        let mut out = String::new();
        push_str(&mut out, "{\"peer_id\":");
        push_json_string(&mut out, self.peer_id.as_str());
        push_str(&mut out, ",\"role\":");
        push_json_string(&mut out, self.role.as_str());
        push_str(&mut out, ",\"token\":");
        push_json_string(&mut out, self.token.as_str());
        push_str(&mut out, "}");
        assert(out@ =~= grant_json(self.token@, self.peer_id@, self.role@));
        out
    }
}

/// Who a token exchange is for: the holder of a known API key, else the
/// agent a device token names (with role `agent`), else nobody. `device`
/// is `None` without a device token and `Some(None)` for an invalid one.
pub open spec fn exchange_subject(
    keys: Map<Seq<char>, (Seq<char>, Seq<char>)>,
    api_key: Option<Seq<char>>,
    device: Option<Option<Seq<char>>>,
) -> Option<(Seq<char>, Seq<char>)> {
    if api_key is Some && keys.contains_key(api_key->0) {
        Some(keys[api_key->0])
    } else {
        match device {
            Some(Some(p)) => Some((p, "agent"@)),
            _ => None,
        }
    }
}

impl AuthState {
    /// Issues a five-minute token for `peer_id` with `role` at time `now`
    /// (seconds since the Unix epoch).
    pub fn issue_token_at(&self, peer_id: &str, role: &str, now: usize) -> (r: Result<String, String>)
        ensures
            r is Ok,
            r->Ok_0@ == jwt_hs256(peer_id@, role@, token_expiry(now), now, self.secret_view()),
            jwt_hs256_claims(r->Ok_0@, self.secret_view()) == Some((peer_id@, role@, token_expiry(now), now)),
    {
        let claims = claims_at(peer_id, role, now);
        jwt_encode(&claims, self.secret.as_str())
    }

    /// Checks a token's signature under this authority's secret and its
    /// expiry (against the clock); on success, its claims.
    pub fn validate_token(&self, token: &str) -> (r: Result<Claims, String>)
        ensures
            r matches Ok(c) ==> jwt_hs256_claims(token@, self.secret_view()) == Some((c.sub@, c.role@, c.exp, c.iat)),
            jwt_hs256_claims(token@, self.secret_view()) is None ==> r is Err,
    {
        jwt_decode(token, self.secret.as_str())
    }

    /// Issues a five-minute token for `peer_id` with `role`, dated now (the
    /// clock's seconds since the Unix epoch, as a `usize`). Encoding cannot
    /// fail, so a token is always issued.
    pub fn issue_token(&self, peer_id: &str, role: &str) -> (r: Result<String, String>)
        ensures
            r is Ok,
            exists|now: usize| {
                &&& exists|secs: u64| read_from_secs_clock(secs) && now == #[trigger] (secs as usize)
                &&& #[trigger] jwt_hs256(peer_id@, role@, token_expiry(now), now, self.secret_view()) == r->Ok_0@
                &&& jwt_hs256_claims(r->Ok_0@, self.secret_view()) == Some((peer_id@, role@, token_expiry(now), now))
            },
    {
        let secs = now_unix_secs();
        let now = secs as usize;
        self.issue_token_at(peer_id, role, now)
    }
}

/// The view of an optional string slice.
pub open spec fn opt_str_view(o: Option<&str>) -> Option<Seq<char>> {
    match o {
        Some(k) => Some(k@),
        None => None,
    }
}

/// The view of what a device token says.
pub open spec fn device_view(d: Option<Option<String>>) -> Option<Option<Seq<char>>> {
    match d {
        Some(Some(p)) => Some(Some(p@)),
        Some(None) => Some(None),
        None => None,
    }
}

/// A token exchange for `subject` under `secret` came out as `r`: refused
/// as unauthorized without a subject; otherwise a grant of a token for the
/// subject, dated at some time (issuing a token cannot fail).
pub open spec fn exchange_outcome(
    subject: Option<(Seq<char>, Seq<char>)>,
    secret: Seq<char>,
    r: Result<TokenGrant, ExchangeError>,
) -> bool {
    match subject {
        None => r matches Err(ExchangeError::Unauthorized),
        Some(s) => match r {
            Ok(g) => g.peer_id@ == s.0 && g.role@ == s.1 && exists|now: usize|
                (exists|secs: u64| read_from_secs_clock(secs) && now == #[trigger] (secs as usize))
                    && #[trigger] jwt_hs256(s.0, s.1, token_expiry(now), now, secret) == g.token@,
            Err(_) => false,
        },
    }
}

fn grant_for(auth: &AuthState, peer_id: String, role: String) -> (r: Result<TokenGrant, ExchangeError>)
    ensures
        exchange_outcome(Some((peer_id@, role@)), auth.secret_view(), r),
{
    match auth.issue_token(peer_id.as_str(), role.as_str()) {
        Ok(token) => {
            proof {
                let now = choose|now: usize| {
                    &&& exists|secs: u64| read_from_secs_clock(secs) && now == #[trigger] (secs as usize)
                    &&& #[trigger] jwt_hs256(peer_id@, role@, token_expiry(now), now, auth.secret_view()) == token@
                    &&& jwt_hs256_claims(token@, auth.secret_view()) == Some((peer_id@, role@, token_expiry(now), now))
                };
                assert(jwt_hs256(peer_id@, role@, token_expiry(now), now, auth.secret_view()) == token@);
            }
            Ok(TokenGrant { token, peer_id, role })
        },
        Err(_) => Err(ExchangeError::Internal),
    }
}

/// Exchanges an API key or a device token for a token. `api_key` is the
/// `x-api-key` header; `device_token_peer` says whether an
/// `x-device-token` header came and, if so, which peer it was issued to
/// (`Some(None)` when it is not valid).
pub fn exchange_token(
    auth: &AuthState,
    api_key: Option<&str>,
    device_token_peer: Option<Option<String>>,
) -> (r: Result<TokenGrant, ExchangeError>)
    requires
        auth.wf(),
    ensures
        exchange_outcome(
            exchange_subject(auth.keys(), opt_str_view(api_key), device_view(device_token_peer)),
            auth.secret_view(),
            r,
        ),
{
    let ghost subject = exchange_subject(auth.keys(), opt_str_view(api_key), device_view(device_token_peer));
    if let Some(k) = api_key {
        if let Some(entry) = auth.lookup_api_key(k) {
            assert(subject == Some(entry@));
            return grant_for(auth, entry.peer_id, entry.role);
        }
    }
    match device_token_peer {
        Some(Some(peer)) => {
            assert(subject == Some((peer@, "agent"@)));
            grant_for(auth, peer, "agent".to_owned())
        },
        _ => Err(ExchangeError::Unauthorized),
    }
}

// ─── TURN credentials and ICE configuration ──────────────────────────────

/// The TURN user name for credentials that expire at `expiry`.
pub open spec fn turn_username(expiry: nat) -> Seq<char> {
    decimal(expiry) + ":mesh"@
}

/// The TURN password for a user name under the shared secret (coturn
/// `use-auth-secret` mode): Base64 of the HMAC-SHA1 of the user name.
pub open spec fn turn_password(secret: Seq<char>, username: Seq<char>) -> Seq<char> {
    base64_standard(hmac_sha1(secret, username))
}

/// Ephemeral TURN credentials that expire at `expiry` (seconds since the
/// Unix epoch): (user name, password).
pub fn turn_credentials_for(secret: &str, expiry: u64) -> (r: (String, String))
    ensures
        r.0@ == turn_username(expiry as nat),
        r.1@ == turn_password(secret@, r.0@),
{
    let mut username = String::new();
    push_decimal(&mut username, expiry);
    push_str(&mut username, ":mesh");
    let tag = hmac_sha1_tag(secret, username.as_str());
    let password = base64_encode(tag.as_slice());
    (username, password)
}

/// `now + ttl`, saturating at `u64::MAX`.
pub open spec fn expiry_after(now: u64, ttl: u64) -> nat {
    if now + ttl > u64::MAX {
        u64::MAX as nat
    } else {
        (now + ttl) as nat
    }
}

/// Ephemeral TURN credentials valid for `ttl_secs` from now (the expiry
/// saturates at `u64::MAX`).
pub fn generate_turn_credentials(secret: &str, ttl_secs: u64) -> (r: (String, String))
    ensures
        exists|now: u64|
            read_from_secs_clock(now) && #[trigger] turn_username(expiry_after(now, ttl_secs)) == r.0@,
        r.1@ == turn_password(secret@, r.0@),
{
    let now = now_unix_secs();
    let expiry = now.saturating_add(ttl_secs);
    assert(expiry as nat == expiry_after(now, ttl_secs));
    let r = turn_credentials_for(secret, expiry);
    assert(turn_username(expiry_after(now, ttl_secs)) == r.0@);
    r
}

/// The public STUN server entry.
pub open spec fn stun_server_json() -> Seq<char> {
    "{\"urls\":[\"stun:stun.l.google.com:19302\"]}"@
}

/// A TURN server entry (keys in sorted order).
pub open spec fn turn_server_json(url: Seq<char>, username: Seq<char>, credential: Seq<char>) -> Seq<char> {
    "{\"credential\":"@ + json_string(credential) + ",\"urls\":["@ + json_string(url) + "],\"username\":"@
        + json_string(username) + "}"@
}

/// The ICE configuration body: the STUN server and, when given, one TURN
/// server (url, user name, credential).
pub open spec fn ice_config_json(turn: Option<(Seq<char>, Seq<char>, Seq<char>)>) -> Seq<char> {
    "{\"iceServers\":["@ + stun_server_json() + match turn {
        Some(t) => ","@ + turn_server_json(t.0, t.1, t.2),
        None => Seq::<char>::empty(),
    } + "]}"@
}

/// The ICE configuration with a TURN server whose credentials, derived
/// from `secret`, expire at `expiry`.
pub open spec fn turn_ice_config_json(url: Seq<char>, secret: Seq<char>, expiry: nat) -> Seq<char> {
    ice_config_json(Some((url, turn_username(expiry), turn_password(secret, turn_username(expiry)))))
}

/// The ICE configuration body for the given TURN server, if any.
pub fn ice_config_body(turn: Option<(String, String, String)>) -> (r: String)
    ensures
        r@ == ice_config_json(match turn {
            Some(t) => Some((t.0@, t.1@, t.2@)),
            None => None,
        }),
{
    let mut out = String::new();
    push_str(&mut out, "{\"iceServers\":[");
    push_str(&mut out, "{\"urls\":[\"stun:stun.l.google.com:19302\"]}");
    let ghost mid = out@;
    match &turn {
        Some(t) => {
            push_str(&mut out, ",");
            push_str(&mut out, "{\"credential\":");
            push_json_string(&mut out, t.2.as_str());
            push_str(&mut out, ",\"urls\":[");
            push_json_string(&mut out, t.0.as_str());
            push_str(&mut out, "],\"username\":");
            push_json_string(&mut out, t.1.as_str());
            push_str(&mut out, "}");
        },
        None => {},
    }
    let ghost after = out@;
    push_str(&mut out, "]}");
    proof {
        let tv: Option<(Seq<char>, Seq<char>, Seq<char>)> = match turn {
            Some(t) => Some((t.0@, t.1@, t.2@)),
            None => None,
        };
        let tail = match tv {
            Some(t) => ","@ + turn_server_json(t.0, t.1, t.2),
            None => Seq::<char>::empty(),
        };
        assert(after =~= mid + tail);
        assert(out@ =~= ice_config_json(tv));
    }
    out
}

/// The ICE configuration (STUN, plus TURN with day-long credentials when
/// both a TURN url and a TURN secret are configured).
pub fn ice_config(turn_url: Option<String>, turn_secret: Option<String>) -> (r: String)
    ensures
        (turn_url is None || turn_secret is None) ==> r@ == ice_config_json(None),
        turn_url is Some && turn_secret is Some ==> exists|now: u64|
            read_from_secs_clock(now) && #[trigger] turn_ice_config_json(turn_url->0@, turn_secret->0@, expiry_after(now, 86400)) == r@,
{
    match (turn_url, turn_secret) {
        (Some(url), Some(secret)) => {
            let (username, credential) = generate_turn_credentials(secret.as_str(), 86400);
            let ghost url_v = url@;
            let ghost user_v = username@;
            let r = ice_config_body(Some((url, username, credential)));
            proof {
                let now = choose|now: u64| read_from_secs_clock(now) && #[trigger] turn_username(expiry_after(now, 86400)) == user_v;
                assert(turn_ice_config_json(url_v, secret@, expiry_after(now, 86400)) == r@);
            }
            r
        },
        _ => ice_config_body(None),
    }
}

}

verus! {

/// TURN credentials are a function of the secret and the expiry: any two
/// results of `turn_credentials_for` for the same secret and expiry are the
/// same, and the password is the HMAC-SHA1 (in Base64) of the user name.
pub proof fn lemma_turn_credentials_determined(
    secret: Seq<char>,
    expiry: nat,
    a: (Seq<char>, Seq<char>),
    b: (Seq<char>, Seq<char>),
)
    requires
        a.0 == turn_username(expiry) && a.1 == turn_password(secret, a.0),
        b.0 == turn_username(expiry) && b.1 == turn_password(secret, b.0),
    ensures
        a == b,
        a.1 == base64_standard(hmac_sha1(secret, turn_username(expiry))),
{
}

/// Decimal representations are never empty.
proof fn lemma_decimal_nonempty(n: nat)
    ensures
        decimal(n).len() >= 1,
    decreases n,
{
    if n >= 10 {
        lemma_decimal_nonempty(n / 10);
    }
}

/// Different digits are written differently.
proof fn lemma_digit_char_injective(x: int, y: int)
    requires
        0 <= x < 10,
        0 <= y < 10,
        digit_char(x) == digit_char(y),
    ensures
        x == y,
{
    assert(digit_char(x) as int == x + 48);
    assert(digit_char(y) as int == y + 48);
}

/// Different numbers have different decimal representations.
proof fn lemma_decimal_injective(a: nat, b: nat)
    requires
        decimal(a) == decimal(b),
    ensures
        a == b,
    decreases a,
{
    if a < 10 && b < 10 {
        assert(decimal(a) == seq![digit_char(a as int)]);
        assert(decimal(b) == seq![digit_char(b as int)]);
        assert(decimal(a)[0] == digit_char(a as int));
        assert(decimal(b)[0] == digit_char(b as int));
        lemma_digit_char_injective(a as int, b as int);
    } else if a < 10 {
        lemma_decimal_nonempty(b / 10);
        assert(decimal(b).len() == decimal(b / 10).len() + 1);
    } else if b < 10 {
        lemma_decimal_nonempty(a / 10);
        assert(decimal(a).len() == decimal(a / 10).len() + 1);
    } else {
        assert(decimal(a).drop_last() =~= decimal(a / 10));
        assert(decimal(b).drop_last() =~= decimal(b / 10));
        assert(decimal(a) == decimal(a / 10).push(digit_char((a % 10) as int)));
        assert(decimal(b) == decimal(b / 10).push(digit_char((b % 10) as int)));
        assert(decimal(a).last() == digit_char((a % 10) as int));
        assert(decimal(b).last() == digit_char((b % 10) as int));
        lemma_digit_char_injective((a % 10) as int, (b % 10) as int);
        lemma_decimal_injective(a / 10, b / 10);
    }
}

/// TURN credentials for different expiries have different user names; so
/// credentials issued at different clock seconds differ, as long as the
/// expiry does not reach `u64::MAX`.
pub proof fn lemma_turn_usernames_differ(a: nat, b: nat)
    requires
        a != b,
    ensures
        turn_username(a) != turn_username(b),
{
    reveal_strlit(":mesh");
    if turn_username(a) == turn_username(b) {
        let ta = turn_username(a);
        let tb = turn_username(b);
        assert(decimal(a) =~= ta.subrange(0, ta.len() - 5));
        assert(decimal(b) =~= tb.subrange(0, tb.len() - 5));
        lemma_decimal_injective(a, b);
    }
}

/// Credentials generated at two clock readings with the same lifetime have
/// different user names when the readings differ and neither expiry
/// saturates.
pub proof fn lemma_generated_usernames_differ(now1: u64, now2: u64, ttl: u64)
    requires
        now1 != now2,
        now1 + ttl <= u64::MAX,
        now2 + ttl <= u64::MAX,
    ensures
        turn_username(expiry_after(now1, ttl)) != turn_username(expiry_after(now2, ttl)),
{
    lemma_turn_usernames_differ(expiry_after(now1, ttl), expiry_after(now2, ttl));
}

}
