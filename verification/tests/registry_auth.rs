use base64::Engine;
use hmac::Mac;
use chatixia_mesh::registry::auth::{
    claims_at, exchange_token, generate_turn_credentials, ice_config, ice_config_body, turn_credentials_for,
    ApiKeyEntry, AuthState, ExchangeError,
};

fn decode_claims(token: &str, secret: &str) -> Result<serde_json::Value, jsonwebtoken::errors::Error> {
    jsonwebtoken::decode::<serde_json::Value>(
        token,
        &jsonwebtoken::DecodingKey::from_secret(secret.as_bytes()),
        &jsonwebtoken::Validation::default(),
    )
    .map(|d| d.claims)
}

#[test]
fn test_issue_and_validate_token() {
    let auth = AuthState::new("test-secret");
    let token = auth.issue_token("peer-1", "agent").unwrap();
    let claims = auth.validate_token(&token).unwrap();
    assert_eq!(claims.sub, "peer-1");
    assert_eq!(claims.role, "agent");
    assert!(claims.exp > claims.iat);
}

#[test]
fn test_validate_expired_token() {
    let auth = AuthState::new("test-secret");
    let past = std::time::SystemTime::now()
        .duration_since(std::time::UNIX_EPOCH)
        .unwrap()
        .as_secs() as usize
        - 600;
    let mut claims = serde_json::Map::new();
    claims.insert("sub".into(), serde_json::Value::from("peer-1"));
    claims.insert("role".into(), serde_json::Value::from("agent"));
    claims.insert("iat".into(), serde_json::Value::from(past));
    claims.insert("exp".into(), serde_json::Value::from(past + 1));
    let token = jsonwebtoken::encode(
        &jsonwebtoken::Header::default(),
        &claims,
        &jsonwebtoken::EncodingKey::from_secret(b"test-secret"),
    )
    .unwrap();
    assert!(auth.validate_token(&token).is_err());
}

#[test]
fn test_validate_wrong_secret() {
    let auth_a = AuthState::new("secret-a");
    let auth_b = AuthState::new("secret-b");
    let token = auth_a.issue_token("peer-1", "agent").unwrap();
    assert!(auth_b.validate_token(&token).is_err());
}

#[test]
fn token_with_missing_claim_is_refused() {
    let auth = AuthState::new("k");
    let now = std::time::SystemTime::now().duration_since(std::time::UNIX_EPOCH).unwrap().as_secs();
    let mut claims = serde_json::Map::new();
    claims.insert("sub".into(), serde_json::Value::from("p"));
    claims.insert("exp".into(), serde_json::Value::from(now + 300));
    claims.insert("iat".into(), serde_json::Value::from(now));
    let token = jsonwebtoken::encode(&jsonwebtoken::Header::default(), &claims, &jsonwebtoken::EncodingKey::from_secret(b"k"))
        .unwrap();
    assert!(auth.validate_token(&token).is_err());
    assert!(auth.validate_token("not.a.token").is_err());
}

#[test]
fn test_lookup_default_api_key() {
    let auth = AuthState::new("test-secret");
    let entry = auth.lookup_api_key("ak_dev_001").unwrap();
    assert_eq!(entry.peer_id, "agent-001");
    assert_eq!(entry.role, "agent");
}

#[test]
fn test_lookup_missing_api_key() {
    let auth = AuthState::new("test-secret");
    assert!(auth.lookup_api_key("nonexistent").is_none());
}

#[test]
fn test_api_key_peer_ids() {
    let auth = AuthState::new("test-secret");
    let ids = auth.api_key_peer_ids();
    assert!(ids.contains(&"agent-001".to_string()));
}

#[test]
fn test_turn_credentials_format() {
    let (username, credential) = generate_turn_credentials("my-secret", 86400);
    assert!(username.ends_with(":mesh"));
    let parts: Vec<&str> = username.split(':').collect();
    assert_eq!(parts.len(), 2);
    assert!(parts[0].parse::<u64>().is_ok());
    assert!(base64::engine::general_purpose::STANDARD.decode(&credential).is_ok());
}

fn entry(peer: &str, role: &str) -> ApiKeyEntry {
    ApiKeyEntry { peer_id: peer.to_string(), role: role.to_string() }
}

#[test]
fn loaded_keys_replace_the_default_key() {
    let loaded = vec![
        ("k1".to_string(), entry("p1", "agent")),
        ("k2".to_string(), entry("p2", "admin")),
        ("k1".to_string(), entry("p3", "agent")),
    ];
    let auth = AuthState::from_loaded_keys("s", Some(loaded));
    assert!(auth.lookup_api_key("ak_dev_001").is_none());
    assert_eq!(auth.lookup_api_key("k1").unwrap().peer_id, "p3");
    assert_eq!(auth.lookup_api_key("k2").unwrap().role, "admin");
    let mut ids = auth.api_key_peer_ids();
    ids.sort();
    assert_eq!(ids, vec!["p2".to_string(), "p3".to_string()]);
}

#[test]
fn missing_key_file_gives_the_default_key() {
    let auth = AuthState::from_loaded_keys("s", None);
    assert_eq!(auth.lookup_api_key("ak_dev_001").unwrap().peer_id, "agent-001");
    assert_eq!(auth.secret(), "s");
}

#[test]
fn peer_ids_are_listed_once() {
    let loaded = vec![("a".to_string(), entry("same", "agent")), ("b".to_string(), entry("same", "agent"))];
    let auth = AuthState::from_loaded_keys("s", Some(loaded));
    assert_eq!(auth.api_key_peer_ids(), vec!["same".to_string()]);
}

#[test]
fn claims_expire_after_five_minutes() {
    let c = claims_at("p", "agent", 1000);
    assert_eq!(c.iat, 1000);
    assert_eq!(c.exp, 1300);
    assert_eq!(c.sub, "p");
}

#[test]
fn expiry_wraps_at_the_end_of_the_clock_range() {
    let c = claims_at("p", "agent", usize::MAX - 100);
    assert_eq!(c.iat, usize::MAX - 100);
    assert_eq!(c.exp, 199);
    let edge = claims_at("p", "agent", usize::MAX - 300);
    assert_eq!(edge.exp, usize::MAX);
}

#[test]
fn issuing_a_token_now_succeeds() {
    let auth = AuthState::new("s");
    let token = auth.issue_token("peer-2", "agent").unwrap();
    let claims = decode_claims(&token, "s").unwrap();
    assert_eq!(claims["sub"], "peer-2");
    assert_eq!(claims["exp"].as_u64().unwrap(), claims["iat"].as_u64().unwrap() + 300);
}

#[test]
fn issued_token_at_fixed_time_carries_the_claims() {
    let auth = AuthState::new("k");
    let t1 = auth.issue_token_at("peer-9", "agent", 4_000_000_000).unwrap();
    let t2 = auth.issue_token_at("peer-9", "agent", 4_000_000_000).unwrap();
    assert_eq!(t1, t2);
    let claims = decode_claims(&t1, "k").unwrap();
    assert_eq!(claims["exp"], 4_000_000_300u64);
    assert_eq!(claims["iat"], 4_000_000_000u64);
}

#[test]
fn exchange_with_api_key() {
    let auth = AuthState::new("k");
    let grant = exchange_token(&auth, Some("ak_dev_001"), None).ok().unwrap();
    assert_eq!(grant.peer_id, "agent-001");
    assert_eq!(grant.role, "agent");
    let body: serde_json::Value = serde_json::from_str(&grant.to_json()).unwrap();
    assert_eq!(body["peer_id"], "agent-001");
    assert_eq!(body["token"], grant.token.as_str());
    assert_eq!(decode_claims(&grant.token, "k").unwrap()["sub"], "agent-001");
}

#[test]
fn exchange_falls_back_to_device_token() {
    let auth = AuthState::new("k");
    let grant = exchange_token(&auth, Some("unknown"), Some(Some("dev-peer".to_string()))).ok().unwrap();
    assert_eq!(grant.peer_id, "dev-peer");
    assert_eq!(grant.role, "agent");
}

#[test]
fn exchange_refuses_unknown_credentials() {
    let auth = AuthState::new("k");
    assert!(matches!(exchange_token(&auth, Some("unknown"), None), Err(ExchangeError::Unauthorized)));
    assert!(matches!(exchange_token(&auth, None, Some(None)), Err(ExchangeError::Unauthorized)));
    assert!(matches!(exchange_token(&auth, None, None), Err(ExchangeError::Unauthorized)));
}

#[test]
fn turn_credentials_follow_coturn_rest_scheme() {
    let (user, pass) = turn_credentials_for("secret", 1700000000);
    assert_eq!(user, "1700000000:mesh");
    let mut mac = <hmac::Hmac<sha1::Sha1> as hmac::Mac>::new_from_slice(b"secret").unwrap();
    mac.update(b"1700000000:mesh");
    let expected = base64::engine::general_purpose::STANDARD.encode(mac.finalize().into_bytes());
    assert_eq!(pass, expected);
    assert_ne!(pass, user);
}

#[test]
fn ice_config_without_turn_is_stun_only() {
    assert_eq!(ice_config(None, None), r#"{"iceServers":[{"urls":["stun:stun.l.google.com:19302"]}]}"#);
    assert_eq!(ice_config(Some("turn:x".to_string()), None), ice_config_body(None));
}

#[test]
fn ice_config_with_turn() {
    let body = ice_config_body(Some(("turn:t:3478".to_string(), "1:mesh".to_string(), "c\"r".to_string())));
    assert_eq!(
        body,
        r#"{"iceServers":[{"urls":["stun:stun.l.google.com:19302"]},{"credential":"c\"r","urls":["turn:t:3478"],"username":"1:mesh"}]}"#
    );
    let live = ice_config(Some("turn:t:3478".to_string()), Some("sec".to_string()));
    let v: serde_json::Value = serde_json::from_str(&live).unwrap();
    assert_eq!(v["iceServers"].as_array().unwrap().len(), 2);
    assert!(v["iceServers"][1]["username"].as_str().unwrap().ends_with(":mesh"));
}

#[test]
fn credentials_for_different_expiries_have_different_user_names() {
    let (u1, p1) = turn_credentials_for("secret", 1700000000);
    let (u2, p2) = turn_credentials_for("secret", 1700000001);
    assert_ne!(u1, u2);
    assert_ne!(p1, p2);
    assert_eq!(turn_credentials_for("secret", 1700000000), (u1, p1));
}
