//! Token verification, configuration parsing, REST decision rules, and
//! voice token claims.

use banter_backend::auth::{bearer_token, verify_claims, verify_token};
use banter_backend::config::{parse_u16, AppConfig};
use banter_backend::error::AppError;
use banter_backend::models::{profile_summary_or_unknown, DiscoverQuery, MessageQuery, ProfileSummary};
use banter_backend::rest::{
    join_server_precheck, join_server_result, leave_server_check, require_member,
    require_server_member,
};
use banter_backend::voice::build_voice_claims;

const U1: u128 = 0x550e8400_e29b_41d4_a716_446655440000;
const U1_TEXT: &str = "550e8400-e29b-41d4-a716-446655440000";

fn make_token(secret: &str, sub: &str, role: &str, iss: &str, exp: i64) -> String {
    let claims: serde_json::Value = serde_json::from_str(&format!(
        "{{\"sub\":\"{sub}\",\"role\":\"{role}\",\"iss\":\"{iss}\",\"exp\":{exp}}}"
    ))
    .unwrap();
    let header = jsonwebtoken::Header::new(jsonwebtoken::Algorithm::HS256);
    let key = jsonwebtoken::EncodingKey::from_secret(secret.as_bytes());
    jsonwebtoken::encode(&header, &claims, &key).unwrap()
}

const FUTURE: i64 = 4102444800; // far in the future

#[test]
fn verify_token_accepts_a_valid_token() {
    let tok = make_token("test-signing-secret", U1_TEXT, "authenticated", "supabase", FUTURE);
    assert_eq!(verify_token("test-signing-secret", &tok), Ok(U1));
}

#[test]
fn verify_token_rejects_wrong_secret_role_issuer_and_expiry() {
    let tok = make_token("test-signing-secret", U1_TEXT, "authenticated", "supabase", FUTURE);
    assert!(verify_token("other-secret", &tok).is_err());

    let anon = make_token("test-signing-secret", U1_TEXT, "anon", "supabase", FUTURE);
    assert_eq!(
        verify_token("test-signing-secret", &anon),
        Err("User is not authenticated".to_owned())
    );

    let wrong_iss = make_token("test-signing-secret", U1_TEXT, "authenticated", "elsewhere", FUTURE);
    assert!(verify_token("test-signing-secret", &wrong_iss).is_err());

    let expired = make_token("test-signing-secret", U1_TEXT, "authenticated", "supabase", 1000);
    assert!(verify_token("test-signing-secret", &expired).is_err());

    let bad_sub = make_token("test-signing-secret", "not-a-uuid", "authenticated", "supabase", FUTURE);
    assert_eq!(
        verify_token("test-signing-secret", &bad_sub),
        Err("Invalid user ID in token".to_owned())
    );

    assert!(verify_token("test-signing-secret", "garbage").is_err());
}

#[test]
fn verify_claims_judges_role_and_subject() {
    assert_eq!(verify_claims(U1_TEXT, "authenticated"), Ok(U1));
    assert_eq!(
        verify_claims(U1_TEXT, "anon"),
        Err("User is not authenticated".to_owned())
    );
    assert_eq!(
        verify_claims("nope", "authenticated"),
        Err("Invalid user ID in token".to_owned())
    );
}

#[test]
fn bearer_token_strips_the_scheme() {
    assert_eq!(bearer_token("Bearer abc.def"), Some("abc.def"));
    assert_eq!(bearer_token("Bearer "), Some(""));
    assert_eq!(bearer_token("Basic abc"), None);
    assert_eq!(bearer_token("bearer abc"), None);
    assert_eq!(bearer_token(""), None);
}

#[test]
fn parse_u16_follows_std() {
    for s in ["0", "1", "8080", "65535", "+443", "007"] {
        assert_eq!(parse_u16(s), s.parse::<u16>().ok(), "case {s}");
    }
    for s in ["", "+", "-1", "65536", "99999999999999999999", "80a", " 80"] {
        assert_eq!(parse_u16(s), s.parse::<u16>().ok(), "case {s}");
    }
}

#[test]
fn config_from_env_parses_the_port() {
    let c = AppConfig::from_env(
        "u".into(), "a".into(), "s".into(), "j".into(), "d".into(),
        "l".into(), "k".into(), "x".into(), "9000",
    );
    assert_eq!(c.backend_port, 9000);
    assert_eq!(c.supabase_jwt_secret, "j");
    let c2 = AppConfig::from_env(
        "u".into(), "a".into(), "s".into(), "j".into(), "d".into(),
        "l".into(), "k".into(), "x".into(), "not-a-port",
    );
    assert_eq!(c2.backend_port, 8080);
}

#[test]
fn rest_gates_decide_access() {
    assert!(require_member(true).is_ok());
    match require_member(false) {
        Err(AppError::Forbidden(m)) => assert_eq!(m, "Not a member"),
        _ => panic!("expected forbidden"),
    }
    match require_server_member(false) {
        Err(AppError::Forbidden(m)) => assert_eq!(m, "You are not a member of this server"),
        _ => panic!("expected forbidden"),
    }
    assert!(join_server_precheck(true, true).is_ok());
    match join_server_precheck(false, true) {
        Err(AppError::NotFound(m)) => assert_eq!(m, "Server not found"),
        _ => panic!("expected not found"),
    }
    match join_server_precheck(true, false) {
        Err(AppError::Forbidden(m)) => assert_eq!(m, "Server is not public"),
        _ => panic!("expected forbidden"),
    }
    match join_server_result(None) {
        Err(AppError::BadRequest(m)) => assert_eq!(m, "Already a member"),
        _ => panic!("expected bad request"),
    }
    assert!(leave_server_check(true, 1, 2).is_ok());
    match leave_server_check(true, 5, 5) {
        Err(AppError::BadRequest(m)) => assert_eq!(m, "Owner cannot leave the server"),
        _ => panic!("expected bad request"),
    }
    match leave_server_check(false, 1, 2) {
        Err(AppError::NotFound(m)) => assert_eq!(m, "Server not found"),
        _ => panic!("expected not found"),
    }
}

#[test]
fn error_mapping_matches_http() {
    assert_eq!(AppError::NotFound("x".into()).status_code(), 404);
    assert_eq!(AppError::Unauthorized("x".into()).status_code(), 401);
    assert_eq!(AppError::BadRequest("x".into()).status_code(), 400);
    assert_eq!(AppError::Forbidden("x".into()).status_code(), 403);
    assert_eq!(AppError::Internal("x".into()).status_code(), 500);
    assert_eq!(AppError::Sqlx("deep db detail".into()).status_code(), 500);
    assert_eq!(AppError::NotFound("x".into()).client_message(), "x");
    // database details are never echoed to the client
    assert_eq!(
        AppError::Sqlx("deep db detail".into()).client_message(),
        "Internal database error"
    );
}

#[test]
fn query_limits_are_clamped() {
    assert_eq!(MessageQuery { before: None, limit: None }.effective_limit(), 50);
    assert_eq!(MessageQuery { before: None, limit: Some(10) }.effective_limit(), 10);
    assert_eq!(MessageQuery { before: None, limit: Some(1000) }.effective_limit(), 100);
    let q = DiscoverQuery { category: None, limit: None, offset: None };
    assert_eq!(q.effective_limit(), 20);
    assert_eq!(q.effective_offset(), 0);
    let q2 = DiscoverQuery { category: None, limit: Some(200), offset: Some(40) };
    assert_eq!(q2.effective_limit(), 50);
    assert_eq!(q2.effective_offset(), 40);
}

#[test]
fn missing_profile_becomes_unknown() {
    let p = profile_summary_or_unknown(U1, None);
    assert_eq!(p.id, U1);
    assert_eq!(p.display_name, "Unknown");
    assert!(p.username.is_none());
    let q = profile_summary_or_unknown(
        U1,
        Some(ProfileSummary {
            id: U1,
            username: Some("kim".into()),
            display_name: "Kim".into(),
            avatar_url: None,
        }),
    );
    assert_eq!(q.display_name, "Kim");
}

#[test]
fn voice_claims_name_the_room_and_expiry() {
    let c = build_voice_claims(U1, 0x11111111_2222_3333_4444_555555555555, 1_700_000_000, "key".into());
    assert_eq!(c.exp, 1_700_000_000 + 21600);
    assert_eq!(c.nbf, 0);
    assert_eq!(c.iss, "key");
    assert_eq!(c.sub, U1_TEXT);
    assert_eq!(c.video.room, "channel:11111111-2222-3333-4444-555555555555");
    assert!(c.video.room_join && c.video.can_publish && c.video.can_subscribe);
}
