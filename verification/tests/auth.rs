use voice_relay::auth::claims_from_parts;
use voice_relay::auth::parse_claims;
use voice_relay::auth::AudioAuth;
use voice_relay::auth::AudioClaims;
use voice_relay::auth::AudioSession;
use voice_relay::auth::AuthError;
use voice_relay::channels::AppState;
use voice_relay::channels::BannedUser;
use voice_relay::channels::Channel;
use voice_relay::channels::ChannelPrivacy;
use voice_relay::channels::Role;

fn unix_now() -> u64 {
    std::time::SystemTime::now().duration_since(std::time::UNIX_EPOCH).unwrap().as_secs()
}

fn token_for(user_id: &str, secret: &str, exp: u64) -> String {
    let mut claims = serde_json::Map::new();
    claims.insert("sub".to_string(), serde_json::Value::from(user_id));
    claims.insert("roles".to_string(), serde_json::Value::from(vec!["user".to_string()]));
    claims.insert("exp".to_string(), serde_json::Value::from(exp));
    claims.insert("iat".to_string(), serde_json::Value::from(unix_now()));
    jsonwebtoken::encode(
        &jsonwebtoken::Header::default(),
        &serde_json::Value::Object(claims),
        &jsonwebtoken::EncodingKey::from_secret(secret.as_bytes()),
    )
    .unwrap()
}

fn create_test_token(user_id: &str) -> String {
    token_for(user_id, "test-secret", unix_now() + 3600)
}

fn rosters() -> AppState {
    let mut state = AppState::new();
    state.channels.push(Channel {
        id: "room".to_string(),
        name: "Room".to_string(),
        privacy: ChannelPrivacy::Private,
        owner: "olga".to_string(),
        moderators: vec!["mia".to_string()],
        members: vec!["test_user".to_string()],
        banned_users: vec![BannedUser {
            user_id: "bob".to_string(),
            username: "Bob".to_string(),
            banned_by: "olga".to_string(),
            banned_at: 1,
            reason: Some("noise".to_string()),
        }],
        invite_tokens: Vec::new(),
    });
    state
}

fn claims(sub: &str) -> AudioClaims {
    AudioClaims { sub: sub.to_string(), roles: vec!["user".to_string()], exp: 10, iat: 1 }
}

#[test]
fn test_authentication() {
    let mut auth = AudioAuth::new("test-secret".to_string(), AppState::new());
    let token = create_test_token("test_user");

    let session = auth.authenticate(&token, 0).unwrap();
    assert_eq!(session.user_id, "test_user");
    assert_eq!(session.username, "test_user");
}

#[test]
fn test_session_management() {
    let mut auth = AudioAuth::new("test-secret".to_string(), AppState::new());
    let token = create_test_token("test_user");

    let session = auth.authenticate(&token, 0).unwrap();
    assert_eq!(session.user_id, "test_user");

    let session2 = auth.get_session("test_user", 0).unwrap();
    assert_eq!(session2.user_id, "test_user");

    auth.remove_session("test_user");
    assert!(auth.get_session("test_user", 0).is_err());
}

#[test]
fn test_invalid_token() {
    let mut auth = AudioAuth::new("test-secret".to_string(), AppState::new());

    assert!(auth.authenticate("invalid.token.here", 0).is_err());
}

#[test]
fn a_token_needs_the_secret_and_an_expiry_ahead() {
    let mut auth = AudioAuth::new("test-secret".to_string(), AppState::new());
    let forged = token_for("test_user", "other-secret", unix_now() + 3600);
    assert_eq!(auth.authenticate(&forged, 0).unwrap_err(), AuthError::InvalidToken);
    let old = token_for("test_user", "test-secret", unix_now() - 3600);
    assert_eq!(auth.authenticate(&old, 0).unwrap_err(), AuthError::InvalidToken);
    assert_eq!(auth.session_count(), 0);

    let good = create_test_token("test_user");
    let session = auth.authenticate(&good, 3).unwrap();
    assert_eq!(session.user_id, "test_user");
    assert_eq!(session.roles, vec!["user"]);
    assert_eq!(session.last_activity, 3);
    assert_eq!(auth.session_count(), 1);
}

#[test]
fn a_token_admits_only_whom_the_roster_admits() {
    let mut auth = AudioAuth::new("test-secret".to_string(), rosters());
    let member = create_test_token("test_user");
    let session = auth.authenticate_with_channel(&member, "room", 7).unwrap();
    assert_eq!(session.user_id, "test_user");
    assert_eq!(session.authenticated_at, 7);
    assert_eq!(auth.session_count(), 1);

    let stranger = create_test_token("eve");
    assert_eq!(
        auth.authenticate_with_channel(&stranger, "room", 7).unwrap_err(),
        AuthError::NotChannelMember
    );
    let banned = create_test_token("bob");
    assert_eq!(auth.authenticate_with_channel(&banned, "room", 7).unwrap_err(), AuthError::UserBanned);
    assert_eq!(
        auth.authenticate_with_channel(&member, "nowhere", 7).unwrap_err(),
        AuthError::ChannelNotFound
    );
    assert_eq!(
        auth.authenticate_with_channel("no.token.here", "room", 7).unwrap_err(),
        AuthError::InvalidToken
    );
    assert_eq!(auth.session_count(), 1);
}

#[test]
fn claims_are_read_from_json() {
    let c = parse_claims("{\"sub\":\"u1\",\"roles\":[\"a\",\"b\"],\"exp\":20,\"iat\":10,\"x\":null}")
        .unwrap();
    assert_eq!(c.sub, "u1");
    assert_eq!(c.roles, vec!["a", "b"]);
    assert_eq!(c.exp, 20);
    assert_eq!(c.iat, 10);
    assert!(parse_claims("{\"sub\":\"u1\",\"roles\":[],\"exp\":20}").is_none());
    assert!(parse_claims("{\"sub\":1,\"roles\":[],\"exp\":20,\"iat\":10}").is_none());
    assert!(parse_claims("{\"sub\":\"u\",\"roles\":[1],\"exp\":20,\"iat\":10}").is_none());
    assert!(parse_claims("{\"sub\":\"u\",\"roles\":[],\"exp\":-1,\"iat\":10}").is_none());
    assert!(parse_claims("{\"sub\":\"u\",\"roles\":[],\"exp\":\"20\",\"iat\":10}").is_none());
    assert!(parse_claims("[\"u\",[],20,10]").is_none());
    assert!(parse_claims("not json").is_none());
}

#[test]
fn claims_need_all_four_parts() {
    let full = claims_from_parts(Some("u".to_string()), Some(vec![]), Some(2), Some(1)).unwrap();
    assert_eq!(full.sub, "u");
    assert_eq!(full.exp, 2);
    assert_eq!(full.iat, 1);
    assert!(claims_from_parts(None, Some(vec![]), Some(2), Some(1)).is_none());
    assert!(claims_from_parts(Some("u".to_string()), None, Some(2), Some(1)).is_none());
    assert!(claims_from_parts(Some("u".to_string()), Some(vec![]), None, Some(1)).is_none());
    assert!(claims_from_parts(Some("u".to_string()), Some(vec![]), Some(2), None).is_none());
}

#[test]
fn the_roster_decides_in_a_fixed_order() {
    let mut state = rosters();
    state.channels[0].members.push("bob".to_string());
    let auth = AudioAuth::new("s".to_string(), state);
    assert_eq!(auth.check_membership("olga", "room"), Ok(Role::Owner));
    assert_eq!(auth.check_membership("mia", "room"), Ok(Role::Moderator));
    assert_eq!(auth.check_membership("test_user", "room"), Ok(Role::Member));
    assert_eq!(auth.check_membership("bob", "room"), Err(AuthError::UserBanned));
    assert_eq!(auth.check_membership("eve", "room"), Err(AuthError::NotChannelMember));
    assert_eq!(auth.check_membership("bob", "void"), Err(AuthError::ChannelNotFound));
}

#[test]
fn entering_opens_a_session_only_on_success() {
    let mut auth = AudioAuth::new("s".to_string(), rosters());
    assert_eq!(auth.enter_channel(None, "room", 1).unwrap_err(), AuthError::InvalidToken);
    assert_eq!(
        auth.enter_channel(Some(claims("eve")), "room", 1).unwrap_err(),
        AuthError::NotChannelMember
    );
    assert_eq!(auth.session_count(), 0);
    let s = auth.enter_channel(Some(claims("mia")), "room", 9).unwrap();
    assert_eq!(s.user_id, "mia");
    assert_eq!(s.username, "mia");
    assert_eq!(s.roles, vec!["user"]);
    assert_eq!(s.last_activity, 9);
    assert_eq!(auth.session_count(), 1);
}

#[test]
fn a_new_session_supersedes_the_old_one() {
    let mut auth = AudioAuth::new("s".to_string(), AppState::new());
    auth.open_session(Some(claims("a")), 1).unwrap();
    auth.open_session(Some(claims("b")), 2).unwrap();
    auth.open_session(Some(claims("a")), 3).unwrap();
    assert_eq!(auth.session_count(), 2);
    assert_eq!(auth.sessions[0].user_id, "a");
    assert_eq!(auth.sessions[0].authenticated_at, 3);
    assert_eq!(auth.sessions[1].user_id, "b");
    assert_eq!(auth.open_session(None, 4).unwrap_err(), AuthError::InvalidToken);
}

#[test]
fn sessions_expire_after_the_timeout() {
    let mut auth = AudioAuth::new("s".to_string(), AppState::new());
    assert_eq!(auth.session_timeout, 3_600_000);
    auth.set_session_timeout(100);
    auth.open_session(Some(claims("a")), 0).unwrap();
    auth.open_session(Some(claims("b")), 50).unwrap();
    auth.open_session(Some(claims("c")), 0).unwrap();

    let touched = auth.get_session("a", 100).unwrap();
    assert_eq!(touched.last_activity, 100);
    assert_eq!(touched.authenticated_at, 0);
    assert_eq!(auth.sessions[0].last_activity, 100);

    assert_eq!(auth.get_session("c", 101).unwrap_err(), AuthError::SessionExpired);
    assert_eq!(auth.get_session("c", 101).unwrap_err(), AuthError::SessionNotFound);
    assert_eq!(auth.session_count(), 2);

    auth.cleanup_expired_sessions(150);
    assert_eq!(auth.session_count(), 2);
    auth.cleanup_expired_sessions(151);
    assert_eq!(auth.session_count(), 1);
    assert_eq!(auth.sessions[0].user_id, "a");
    auth.remove_session("nobody");
    assert_eq!(auth.session_count(), 1);
}

#[test]
fn a_session_knows_when_it_is_idle() {
    let mut s = AudioSession::new("u".to_string(), "U".to_string(), vec![], 10);
    assert_eq!(s.authenticated_at, 10);
    assert!(!s.is_expired(5, 15));
    assert!(s.is_expired(5, 16));
    assert!(!s.is_expired(5, 0));
    s.update_activity(16);
    assert!(!s.is_expired(5, 16));
    assert_eq!(s.authenticated_at, 10);
    let copy = s.clone();
    assert_eq!(copy.user_id, "u");
    assert_eq!(copy.last_activity, 16);
}

#[test]
fn auth_error_messages() {
    assert_eq!(AuthError::InvalidToken.message(), "Invalid JWT token");
    assert_eq!(AuthError::SessionNotFound.message(), "Session not found");
    assert_eq!(AuthError::SessionExpired.message(), "Session expired");
    assert_eq!(AuthError::UserNotFound.message(), "User not found");
    assert_eq!(AuthError::PermissionDenied.message(), "Permission denied");
    assert_eq!(AuthError::ChannelNotFound.message(), "Channel not found");
    assert_eq!(AuthError::NotChannelMember.message(), "User not a member of channel");
    assert_eq!(AuthError::UserBanned.message(), "User is banned from channel");
}
