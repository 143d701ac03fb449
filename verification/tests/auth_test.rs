use mutao::auth::{
    authorize, bearer_token, check_secret_config, claims_if_fresh, create_token, is_production,
    sign_token, verify_token, authorize_query, create_token_at, verify_token_at, TOKEN_LIFETIME_SECS, CHRONO_MAX_SECS,
    CHRONO_MIN_SECS,
};
use uuid::Uuid;

const SECRET: &[u8] = b"mutao-secret-change-in-production";

#[test]
fn test_create_and_verify_token() {
    let user_id = Uuid::new_v4().as_u128();
    let username = "testuser";
    let token = create_token(user_id, username, SECRET).unwrap();

    let claims = verify_token(&token, SECRET).unwrap();
    assert_eq!(claims.sub, user_id);
    assert_eq!(claims.username, username);
}

#[test]
fn test_verify_invalid_token() {
    let result = verify_token("invalid-token", SECRET);
    assert!(result.is_err());
}

#[test]
fn test_claims_serialization() {
    let user_id = Uuid::new_v4().as_u128();
    let token = create_token(user_id, "alice", SECRET).unwrap();
    let claims = verify_token(&token, SECRET).unwrap();

    assert_eq!(claims.sub, user_id);
    assert_eq!(claims.username, "alice");
    assert!(claims.exp > chrono::Utc::now().timestamp() as u64);
}

#[test]
fn token_signed_with_other_secret_is_refused() {
    let token = create_token(7, "bob", SECRET).unwrap();
    assert_eq!(verify_token(&token, b"another-secret").unwrap_err(), 401);
}

#[test]
fn expired_token_is_refused_after_leeway() {
    let now = chrono::Utc::now().timestamp() as u64;
    let stale = sign_token(7, "bob", now - 3600, SECRET).unwrap();
    assert_eq!(verify_token(&stale, SECRET).unwrap_err(), 401);
    let within_leeway = sign_token(7, "bob", now - 10, SECRET).unwrap();
    assert_eq!(verify_token(&within_leeway, SECRET).unwrap().sub, 7);
}

#[test]
fn claims_expire_after_leeway() {
    assert!(claims_if_fresh(Some((1, "a".to_string(), 100)), 160).is_ok());
    assert_eq!(claims_if_fresh(Some((1, "a".to_string(), 100)), 161).unwrap_err(), 401);
    assert_eq!(claims_if_fresh(None, 0).unwrap_err(), 401);
    assert!(claims_if_fresh(Some((1, "a".to_string(), 0)), 59).is_ok());
}

#[test]
fn bearer_header_parsing() {
    assert_eq!(bearer_token("Bearer abc.def"), Some("abc.def"));
    assert_eq!(bearer_token("bearer abc"), None);
    assert_eq!(bearer_token("Basic abc"), None);
    assert_eq!(bearer_token("Bearer "), Some(""));
}

#[test]
fn authorize_reads_bearer_token() {
    let token = create_token(42, "carol", SECRET).unwrap();
    let header = format!("Bearer {token}");
    assert_eq!(authorize(Some(&header), SECRET).unwrap().sub, 42);
    assert_eq!(authorize(None, SECRET).unwrap_err(), 401);
    assert_eq!(authorize(Some(&token), SECRET).unwrap_err(), 401);
}

#[test]
fn test_ensure_secret_production_missing_fails() {
    assert!(check_secret_config(Some("production"), None).is_err());
}

#[test]
fn test_ensure_secret_production_short_fails() {
    assert!(check_secret_config(Some("production"), Some("too-short")).is_err());
}

#[test]
fn test_ensure_secret_production_strong_ok() {
    assert!(check_secret_config(
        Some("production"),
        Some("a-sufficiently-long-production-secret-key-0123456789")
    )
    .is_ok());
}

#[test]
fn test_ensure_secret_dev_missing_ok() {
    assert!(check_secret_config(Some("development"), None).is_ok());
}

#[test]
fn secret_check_messages_and_case() {
    assert!(is_production(Some("PRODUCTION")));
    assert!(is_production(Some("Production")));
    assert!(!is_production(Some("prod")));
    assert!(!is_production(None));
    assert_eq!(
        check_secret_config(Some("production"), Some("too-short")).unwrap_err(),
        "生产环境 JWT_SECRET 太弱：要求至少 32 字节，当前仅 9 字节"
    );
    assert_eq!(
        check_secret_config(Some("production"), None).unwrap_err(),
        "生产环境（APP_ENV=production）必须设置 JWT_SECRET，拒绝以内置弱密钥启动"
    );
    assert!(check_secret_config(None, Some("short")).is_ok());
}

#[test]
fn token_is_valid_for_a_day_from_issue() {
    let now: i64 = 1_700_000_000;
    let token = create_token_at(9, "dora", now, SECRET).unwrap();
    let at_issue = verify_token_at(&token, SECRET, now as u64).unwrap();
    assert_eq!(at_issue.sub, 9);
    assert_eq!(at_issue.username, "dora");
    assert_eq!(at_issue.exp, (now + TOKEN_LIFETIME_SECS) as u64);
    let day_later = (now + TOKEN_LIFETIME_SECS) as u64;
    assert!(verify_token_at(&token, SECRET, day_later).is_ok());
    assert!(verify_token_at(&token, SECRET, day_later + 60).is_ok());
    assert_eq!(verify_token_at(&token, SECRET, day_later + 61).unwrap_err(), 401);
}

#[test]
fn token_expiry_out_of_range_is_refused() {
    assert_eq!(create_token_at(1, "x", i64::MAX - 10, SECRET).unwrap_err(), 500);
    assert_eq!(create_token_at(1, "x", 1_000_000_000_000_000, SECRET).unwrap_err(), 500);
    assert!(create_token_at(1, "x", 0, SECRET).is_ok());
}

#[test]
fn websocket_token_parameter_is_checked() {
    assert_eq!(authorize_query(None, SECRET).unwrap_err(), 401);
    assert_eq!(authorize_query(Some("garbage"), SECRET).unwrap_err(), 401);
    let token = create_token(5, "eve", SECRET).unwrap();
    assert_eq!(authorize_query(Some(&token), SECRET).unwrap().sub, 5);
}

#[test]
fn authorize_refuses_expired_bearer_token() {
    let now = chrono::Utc::now().timestamp() as u64;
    let stale = sign_token(3, "old", now - 3600, SECRET).unwrap();
    let header = format!("Bearer {stale}");
    assert_eq!(authorize(Some(header.as_str()), SECRET).unwrap_err(), 401);
    let fresh = create_token(3, "old", SECRET).unwrap();
    let header = format!("Bearer {fresh}");
    let claims = authorize(Some(header.as_str()), SECRET).unwrap();
    assert_eq!(claims.sub, 3);
    assert!(claims.exp >= now + 86400);
}

#[test]
fn token_expiry_follows_chrono_range() {
    let last = CHRONO_MAX_SECS - TOKEN_LIFETIME_SECS;
    assert!(create_token_at(1, "x", last, SECRET).is_ok());
    assert_eq!(create_token_at(1, "x", last + 1, SECRET).unwrap_err(), 500);
    let first = CHRONO_MIN_SECS - TOKEN_LIFETIME_SECS;
    assert!(create_token_at(1, "x", first, SECRET).is_ok());
    assert_eq!(create_token_at(1, "x", first - 1, SECRET).unwrap_err(), 500);
}

fn base64url_decode(text: &str) -> Vec<u8> {
    let alphabet = b"ABCDEFGHIJKLMNOPQRSTUVWXYZabcdefghijklmnopqrstuvwxyz0123456789-_";
    let mut bits: u32 = 0;
    let mut count = 0;
    let mut out = Vec::new();
    for c in text.bytes() {
        let v = alphabet.iter().position(|&a| a == c).unwrap() as u32;
        bits = (bits << 6) | v;
        count += 6;
        if count >= 8 {
            count -= 8;
            out.push((bits >> count) as u8);
            bits &= (1 << count) - 1;
        }
    }
    out
}

#[test]
fn token_claims_keep_their_order() {
    let user = Uuid::new_v4();
    let token = sign_token(user.as_u128(), "alice", 1234, SECRET).unwrap();
    let payload = token.split('.').nth(1).unwrap();
    let claims = String::from_utf8(base64url_decode(payload)).unwrap();
    assert_eq!(claims, format!("{{\"sub\":\"{user}\",\"username\":\"alice\",\"exp\":1234}}"));
}
