use spring_websocket::auth::{token_outcome, AuthError, AuthInfo, AuthService, SessionStore};
use spring_websocket::claims::WsClaims;
use spring_websocket::strmap::StrMap;

const TEST_SECRET: &str = "test_secret_key_for_jwt";

fn claims_of(json: &str) -> serde_json::Value {
    serde_json::from_str(json).unwrap()
}

#[test]
fn test_token_generation_and_validation() {
    let auth = AuthService::new(TEST_SECRET);

    let user_id = "user123";
    let rooms = vec!["room1".to_string(), "room2".to_string()];

    let token = auth.generate_token(user_id, rooms.clone(), 3600u64).unwrap();
    let claims = claims_of(&auth.validate_token(&token).unwrap());

    assert_eq!(claims["sub"], user_id);
    let got: Vec<String> = claims["rooms"]
        .as_array()
        .unwrap()
        .iter()
        .map(|r| r.as_str().unwrap().to_string())
        .collect();
    assert_eq!(got, rooms);
}

#[test]
fn test_invalid_token() {
    let auth = AuthService::new(TEST_SECRET);
    let result = auth.validate_token("invalid_token");
    assert!(result.is_err());
}

#[test]
fn test_session_store() {
    let mut store = SessionStore::new();
    let connection_id = uuid::Uuid::new_v4().as_u128();

    let auth_info = AuthInfo {
        user_id: "user123".to_string(),
        connection_id,
        allowed_rooms: vec!["room1".to_string()],
        metadata: StrMap::new(),
    };

    store.add_session(connection_id, auth_info.clone());
    let retrieved = store.get_session(&connection_id);
    assert!(retrieved.is_some());
    assert_eq!(retrieved.unwrap().user_id, "user123");
}

fn info(rooms: &[&str]) -> AuthInfo {
    AuthInfo {
        user_id: "u".to_string(),
        connection_id: 1,
        allowed_rooms: rooms.iter().map(|r| r.to_string()).collect(),
        metadata: StrMap::new(),
    }
}

#[test]
fn room_access_rules() {
    let mut store = SessionStore::new();
    // no session: allowed
    assert!(store.check_room_access(&1, &"any".to_string()).is_ok());
    store.add_session(1, info(&["room1"]));
    assert!(store.check_room_access(&1, &"room1".to_string()).is_ok());
    match store.check_room_access(&1, &"room2".to_string()) {
        Err(AuthError::AccessDenied(r)) => assert_eq!(r, "room2"),
        other => panic!("unexpected {:?}", other),
    }
    store.add_session(2, info(&["x", "*"]));
    assert!(store.check_room_access(&2, &"room2".to_string()).is_ok());
    store.add_session(3, info(&[]));
    assert!(store.check_room_access(&3, &"room1".to_string()).is_err());
}

#[test]
fn session_remove_forgets() {
    let mut store = SessionStore::default();
    store.add_session(4, info(&["a"]));
    store.remove_session(&4);
    assert!(store.get_session(&4).is_none());
    assert!(store.check_room_access(&4, &"b".to_string()).is_ok());
}

#[test]
fn token_with_metadata_carries_claims() {
    let auth = AuthService::new(TEST_SECRET);
    let mut meta = StrMap::new();
    meta.insert("role".to_string(), "\"admin\"".to_string());
    meta.insert("level".to_string(), "3".to_string());
    let token = auth
        .generate_token_with_metadata("bob", vec![], 60, meta)
        .unwrap();
    let claims = claims_of(&auth.validate_token(&token).unwrap());
    assert_eq!(claims["sub"], "bob");
    assert_eq!(claims["role"], "admin");
    assert_eq!(claims["level"], 3);
    assert!(claims["connection_id"].is_null());
    let iat = claims["iat"].as_u64().unwrap();
    assert_eq!(claims["exp"].as_u64().unwrap(), iat + 60);
}

#[test]
fn token_from_other_secret_is_invalid() {
    let auth = AuthService::new(TEST_SECRET);
    let other = AuthService::new("another secret");
    let token = other.generate_token("u", vec![], 3600).unwrap();
    match auth.validate_token(&token) {
        Err(AuthError::InvalidToken(_)) => {}
        other => panic!("unexpected {:?}", other),
    }
}

#[test]
fn expired_token_is_invalid() {
    let auth = AuthService::new(TEST_SECRET);
    let token = auth
        .generate_token_at("u", vec![], 10, StrMap::new(), 1_000)
        .unwrap();
    assert!(auth.validate_token(&token).is_err());
}

#[test]
fn generate_token_at_is_deterministic() {
    let auth = AuthService::new(TEST_SECRET);
    let a = auth.generate_token_at("u", vec!["r".to_string()], 10, StrMap::new(), 5).unwrap();
    let b = auth.generate_token_at("u", vec!["r".to_string()], 10, StrMap::new(), 5).unwrap();
    assert_eq!(a, b);
    let c = auth.generate_token_at("v", vec!["r".to_string()], 10, StrMap::new(), 5).unwrap();
    assert_ne!(a, c);
}

#[test]
fn invalid_metadata_json_fails_generation() {
    let auth = AuthService::new(TEST_SECRET);
    let mut meta = StrMap::new();
    meta.insert("bad".to_string(), "{not json".to_string());
    match auth.generate_token_at("u", vec![], 10, meta, 5) {
        Err(AuthError::TokenGeneration(_)) => {}
        other => panic!("unexpected {:?}", other),
    }
}

#[test]
fn expiry_overflow_fails_generation() {
    let auth = AuthService::new(TEST_SECRET);
    match auth.generate_token("u", vec![], u64::MAX) {
        Err(AuthError::TokenGeneration(m)) => assert_eq!(m, "expiration time overflows"),
        other => panic!("unexpected {:?}", other),
    }
}

#[test]
fn claims_json_text() {
    let mut meta = StrMap::new();
    meta.insert("k".to_string(), "[1,2]".to_string());
    let claims = WsClaims {
        connection_id: None,
        sub: "a\"b\\c\n\u{1}é".to_string(),
        rooms: vec!["r1".to_string(), "r2".to_string()],
        metadata: meta,
        iat: 7,
        exp: 1234567890123,
    };
    assert_eq!(
        claims.to_json(),
        "{\"connection_id\":null,\"sub\":\"a\\\"b\\\\c\\n\\u0001é\",\"rooms\":[\"r1\",\"r2\"],\"k\":[1,2],\"iat\":7,\"exp\":1234567890123}"
    );
    // the same text as serde_json writes for the string
    let expected_sub = serde_json::to_string("a\"b\\c\n\u{1}é").unwrap();
    assert!(claims.to_json().contains(&expected_sub));
}

#[test]
fn claims_json_with_connection_id() {
    let id = uuid::Uuid::parse_str("67e55044-10b1-426f-9247-bb680e5fe0c8").unwrap();
    let claims = WsClaims {
        connection_id: Some(id.as_u128()),
        sub: String::new(),
        rooms: vec![],
        metadata: StrMap::new(),
        iat: 0,
        exp: 0,
    };
    assert_eq!(
        claims.to_json(),
        "{\"connection_id\":\"67e55044-10b1-426f-9247-bb680e5fe0c8\",\"sub\":\"\",\"rooms\":[],\"iat\":0,\"exp\":0}"
    );
}

#[test]
fn token_outcome_maps_decoding() {
    let text = "{\"a\":1,\"exp\":1000}".to_string();
    assert_eq!(token_outcome(Ok(text.clone()), 1_000).unwrap(), text);
    // within the minute of leeway
    assert_eq!(token_outcome(Ok(text.clone()), 1_060).unwrap(), text);
    match token_outcome(Ok(text.clone()), 1_061) {
        Err(AuthError::InvalidToken(m)) => assert_eq!(m, "ExpiredSignature"),
        other => panic!("unexpected {:?}", other),
    }
    match token_outcome(Ok("{\"a\":1}".to_string()), 0) {
        Err(AuthError::InvalidToken(m)) => assert_eq!(m, "Missing required claim: exp"),
        other => panic!("unexpected {:?}", other),
    }
    match token_outcome(Err("bad".to_string()), 0) {
        Err(AuthError::InvalidToken(m)) => assert_eq!(m, "bad"),
        other => panic!("unexpected {:?}", other),
    }
}

#[test]
fn validate_token_at_checks_expiry_with_leeway() {
    let auth = AuthService::new(TEST_SECRET);
    let token = auth.generate_token_at("u", vec![], 10, StrMap::new(), 1_000).unwrap();
    assert!(auth.validate_token_at(&token, 1_000).is_ok());
    assert!(auth.validate_token_at(&token, 1_070).is_ok());
    match auth.validate_token_at(&token, 1_071) {
        Err(AuthError::InvalidToken(m)) => assert_eq!(m, "ExpiredSignature"),
        other => panic!("unexpected {:?}", other),
    }
    let other = AuthService::new("another secret");
    assert!(other.validate_token_at(&token, 1_000).is_err());
}

#[test]
fn validated_claims_are_the_token_payload() {
    let auth = AuthService::new(TEST_SECRET);
    let token = auth.generate_token("carol", vec!["x".to_string()], 600).unwrap();
    let text = auth.validate_token(&token).unwrap();
    // the claims come back as the very text that was signed
    assert!(text.starts_with("{\"connection_id\":null,\"sub\":\"carol\",\"rooms\":[\"x\"],\"iat\":"));
}

#[test]
fn cloned_service_shares_the_secret() {
    let a = AuthService::new("shared-secret");
    let b = a.clone();
    let from_a = a.generate_token("u", vec!["r".to_string()], 3600).unwrap();
    let from_b = b.generate_token("u", vec!["r".to_string()], 3600).unwrap();
    assert_eq!(b.validate_token(&from_a).unwrap(), a.validate_token(&from_a).unwrap());
    assert!(a.validate_token(&from_b).is_ok());
    assert!(a.validate_token("not.a.token").is_err());
    assert!(b.validate_token("not.a.token").is_err());
}

#[test]
fn claims_clone_writes_the_same_json() {
    let mut meta = StrMap::new();
    meta.insert("k".to_string(), "1".to_string());
    let claims = WsClaims {
        connection_id: Some(0x0123456789abcdef0011223344556677),
        sub: "s".to_string(),
        rooms: vec!["a".to_string()],
        metadata: meta,
        iat: 1,
        exp: 2,
    };
    let copy = claims.clone();
    assert_eq!(copy.to_json(), claims.to_json());
    assert!(copy.to_json().contains("\"01234567-89ab-cdef-0011-223344556677\""));
}

#[test]
fn issued_token_validates_to_the_issued_claims() {
    let auth = AuthService::new(TEST_SECRET);
    let token = auth.generate_token_at("dave", vec!["r1".to_string()], 100, StrMap::new(), 5_000).unwrap();
    let claims = WsClaims {
        connection_id: None,
        sub: "dave".to_string(),
        rooms: vec!["r1".to_string()],
        metadata: StrMap::new(),
        iat: 5_000,
        exp: 5_100,
    };
    assert_eq!(auth.validate_token_at(&token, 5_160).unwrap(), claims.to_json());
    assert_eq!(auth.clone().validate_token_at(&token, 5_000).unwrap(), claims.to_json());
    assert!(auth.validate_token_at(&token, 5_161).is_err());
}
