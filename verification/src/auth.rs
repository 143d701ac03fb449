//! Authentication: the secret policy, session tokens (JWT, HS256) and password hashes.
use vstd::prelude::*;

use crate::clock::now_secs;
use crate::text::{decimal, eq_ignore_ascii_case, eq_ignore_ascii_case_spec, push_decimal, starts_with, starts_with_spec};

verus! {

/// The least length, in bytes, of the token secret in production.
pub const MIN_SECRET_LEN: usize = 32;

/// How long a token stays valid after it expires, in seconds, to allow for clock skew.
pub const EXPIRY_LEEWAY_SECS: u64 = 60;

/// The identity a token carries: the user, the user's name, and the expiry time in
/// seconds since the UNIX epoch.
#[derive(Debug, Clone)]
pub struct Claims {
    pub sub: u128,
    pub username: String,
    pub exp: u64,
}

/// A login request.
#[derive(Debug, Clone)]
pub struct LoginReq {
    pub username: String,
    pub password: String,
}

/// The answer to a successful login or registration.
#[derive(Debug, Clone)]
pub struct LoginRes {
    pub token: String,
    pub user_id: u128,
    pub username: String,
}

/// The token that `jsonwebtoken::encode` makes, with the default header (HS256) and the
/// key `secret`, of the claims `sub` (as a hyphenated identifier), `username` and `exp`,
/// written in that order.
pub uninterp spec fn jwt_signed(sub: u128, username: Seq<char>, exp: u64, secret: Seq<u8>) -> Option<Seq<char>>;

/// The claims (`sub`, `username`, `exp`) that `jsonwebtoken::decode` reads from `token`
/// when it checks the HS256 signature with the key `secret` and the default validation
/// except the expiry check; `None` when it refuses the token.
pub uninterp spec fn jwt_claims(token: Seq<char>, secret: Seq<u8>) -> Option<(u128, Seq<char>, u64)>;

/// What `bcrypt::verify` answers for `password` and the stored `hash`: whether they
/// match, or the text of the error when `hash` is malformed.
pub uninterp spec fn bcrypt_verdict(password: Seq<char>, hash: Seq<char>) -> Result<bool, Seq<char>>;

/// Calls `jsonwebtoken::encode` with the default header (HS256), the claims `sub`,
/// `username` and `exp` in a `serde_json::Map`, which keeps them in that order (the
/// crate is built with serde_json's `preserve_order`), and
/// `EncodingKey::from_secret(secret)`. HS256 signing with a
/// secret key does not fail, and the token decodes, with the same key, to the same
/// claims.
#[verifier::external_body]
fn jwt_sign(sub: u128, username: &str, exp: u64, secret: &[u8]) -> (t: Option<String>)
    ensures
        t is Some,
        jwt_signed(sub, username@, exp, secret@) == Some(t.unwrap()@),
        jwt_claims(t.unwrap()@, secret@) == Some((sub, username@, exp)),
{
    let mut claims = serde_json::Map::new();
    claims.insert("sub".to_string(), uuid::Uuid::from_u128(sub).to_string().into());
    claims.insert("username".to_string(), username.to_string().into());
    claims.insert("exp".to_string(), exp.into());
    let key = jsonwebtoken::EncodingKey::from_secret(secret);
    jsonwebtoken::encode(&jsonwebtoken::Header::default(), &claims, &key).ok()
}

/// Calls `jsonwebtoken::decode` with `DecodingKey::from_secret(secret)` and the default
/// validation without its expiry check, and reads the claims `sub` (an identifier),
/// `username` and `exp`.
#[verifier::external_body]
fn jwt_decode(token: &str, secret: &[u8]) -> (r: Option<(u128, String, u64)>)
    ensures
        match r {
            Some((sub, username, exp)) => jwt_claims(token@, secret@) == Some((sub, username@, exp)),
            None => jwt_claims(token@, secret@) is None,
        },
{
    let mut validation = jsonwebtoken::Validation::default();
    validation.validate_exp = false;
    let key = jsonwebtoken::DecodingKey::from_secret(secret);
    let data = jsonwebtoken::decode::<serde_json::Map<String, serde_json::Value>>(token, &key, &validation).ok()?;
    let sub = uuid::Uuid::parse_str(data.claims.get("sub")?.as_str()?).ok()?.as_u128();
    let username = data.claims.get("username")?.as_str()?.to_string();
    let exp = data.claims.get("exp")?.as_u64()?;
    Some((sub, username, exp))
}

/// Calls `jsonwebtoken::get_current_timestamp`, the current time in seconds. It depends
/// on the system clock, so nothing is stated of it.
#[verifier::external_body]
fn current_timestamp() -> (now: u64) {
    jsonwebtoken::get_current_timestamp()
}

/// The earliest instant chrono represents, in seconds since the UNIX epoch: the start
/// of January 1, 262144 BCE.
pub const CHRONO_MIN_SECS: i64 = -8334601228800;

/// The last whole second chrono represents, in seconds since the UNIX epoch: the last
/// second of December 31, 262142 CE.
pub const CHRONO_MAX_SECS: i64 = 8210266876799;

/// Whether chrono represents the instant `secs` seconds after the UNIX epoch.
pub open spec fn chrono_in_range(secs: i64) -> bool {
    CHRONO_MIN_SECS <= secs <= CHRONO_MAX_SECS
}

/// Calls `chrono::DateTime::from_timestamp(secs, 0)` and tells whether it gave an
/// instant rather than `None`: it does exactly for the seconds between the first day of
/// `NaiveDate::MIN` and the last second of `NaiveDate::MAX`.
#[verifier::external_body]
fn chrono_accepts_timestamp(secs: i64) -> (ok: bool)
    ensures
        ok == chrono_in_range(secs),
{
    chrono::DateTime::from_timestamp(secs, 0).is_some()
}

/// Calls `bcrypt::hash` with the default cost and a random salt, and returns the hash or
/// the text of the error. A hash it makes verifies against the same password.
#[verifier::external_body]
pub(crate) fn hash_password(password: &str) -> (r: Result<String, String>)
    ensures
        match r {
            Ok(h) => bcrypt_verdict(password@, h@) == Ok::<bool, Seq<char>>(true),
            Err(_) => true,
        },
{
    bcrypt::hash(password, bcrypt::DEFAULT_COST).map_err(|e| e.to_string())
}

/// Calls `bcrypt::verify`, and returns its answer or the text of its error.
#[verifier::external_body]
pub(crate) fn verify_password(password: &str, hash: &str) -> (r: Result<bool, String>)
    ensures
        match r {
            Ok(b) => bcrypt_verdict(password@, hash@) == Ok::<bool, Seq<char>>(b),
            Err(e) => bcrypt_verdict(password@, hash@) == Err::<bool, Seq<char>>(e@),
        },
{
    bcrypt::verify(password, hash).map_err(|e| e.to_string())
}

/// The environment is production: `APP_ENV` is set to "production", in any case.
pub open spec fn is_production_spec(app_env: Option<Seq<char>>) -> bool {
    app_env matches Some(v) && eq_ignore_ascii_case_spec(v, "production"@)
}

/// Whether the environment named by `APP_ENV` is production.
pub fn is_production(app_env: Option<&str>) -> (r: bool)
    ensures
        r == is_production_spec(
            match app_env {
                Some(v) => Some(v@),
                None => None,
            },
        ),
{
    match app_env {
        Some(v) => eq_ignore_ascii_case(v, "production"),
        None => false,
    }
}

/// The refusal of a production secret of `len` bytes that is too short.
pub open spec fn weak_secret_message(len: usize) -> Seq<char> {
    "生产环境 JWT_SECRET 太弱：要求至少 32 字节，当前仅 "@ + decimal(len as nat) + " 字节"@
}

/// The refusal of a production environment without a secret.
pub open spec fn missing_secret_message() -> Seq<char> {
    "生产环境（APP_ENV=production）必须设置 JWT_SECRET，拒绝以内置弱密钥启动"@
}

/// Checks the token secret at start-up. In production a secret must be set and hold at
/// least `MIN_SECRET_LEN` bytes; elsewhere anything goes (a missing secret falls back to
/// a built-in one). `app_env` and `jwt_secret` are the values of `APP_ENV` and
/// `JWT_SECRET`, if set.
pub fn check_secret_config(app_env: Option<&str>, jwt_secret: Option<&str>) -> (r: Result<(), String>)
    ensures
        match jwt_secret {
            Some(secret) => if is_production_spec(
                match app_env {
                    Some(v) => Some(v@),
                    None => None,
                },
            ) && secret.len() < MIN_SECRET_LEN {
                r matches Err(m) && m@ == weak_secret_message(secret.len())
            } else {
                r is Ok
            },
            None => if is_production_spec(
                match app_env {
                    Some(v) => Some(v@),
                    None => None,
                },
            ) {
                r matches Err(m) && m@ == missing_secret_message()
            } else {
                r is Ok
            },
        },
{
    let production = is_production(app_env);
    match jwt_secret {
        Some(secret) => {
            let len = secret.len();
            if production && len < MIN_SECRET_LEN {
                let mut m = String::from_str("生产环境 JWT_SECRET 太弱：要求至少 32 字节，当前仅 ");
                push_decimal(&mut m, len as u64);
                m.append(" 字节");
                return Err(m);
            }
            Ok(())
        },
        None => {
            if production {
                return Err(
                    String::from_str(
                        "生产环境（APP_ENV=production）必须设置 JWT_SECRET，拒绝以内置弱密钥启动",
                    ),
                );
            }
            Ok(())
        },
    }
}

/// Signs a token for the user that expires at `exp`.
pub fn sign_token(user_id: u128, username: &str, exp: u64, secret: &[u8]) -> (r: Result<String, u16>)
    ensures
        r matches Ok(t) && jwt_signed(user_id, username@, exp, secret@) == Some(t@) && jwt_claims(
            t@,
            secret@,
        ) == Some((user_id, username@, exp)),
{
    match jwt_sign(user_id, username, exp, secret) {
        Some(token) => Ok(token),
        None => Err(500),
    }
}

/// How long a token is valid, in seconds: 24 hours.
pub const TOKEN_LIFETIME_SECS: i64 = 86400;

/// The expiry of a token issued at `now` (seconds since the UNIX epoch): 24 hours
/// later, when chrono can represent that instant.
pub open spec fn token_expiry(now: i64) -> Option<u64> {
    if now + TOKEN_LIFETIME_SECS <= i64::MAX && chrono_in_range((now + TOKEN_LIFETIME_SECS) as i64) {
        Some((now + TOKEN_LIFETIME_SECS) as u64)
    } else {
        None
    }
}

/// `r` is what issuing a token to the user at time `now` gives: a token signed with
/// `secret` whose claims are the user and the expiry 24 hours later, or status 500 when
/// that expiry is out of range.
pub open spec fn issued_at(
    user_id: u128,
    username: Seq<char>,
    now: i64,
    secret: Seq<u8>,
    r: Result<String, u16>,
) -> bool {
    match token_expiry(now) {
        None => r == Err::<String, u16>(500),
        Some(exp) => r matches Ok(t) && jwt_signed(user_id, username, exp, secret) == Some(t@)
            && jwt_claims(t@, secret) == Some((user_id, username, exp)),
    }
}

/// Creates a token for the user issued at time `now` (seconds since the UNIX epoch),
/// which expires 24 hours later; status 500 when the expiry is out of range.
pub fn create_token_at(user_id: u128, username: &str, now: i64, secret: &[u8]) -> (r: Result<String, u16>)
    ensures
        issued_at(user_id, username@, now, secret@, r),
{
    if now > i64::MAX - TOKEN_LIFETIME_SECS {
        return Err(500);
    }
    let exp = now + TOKEN_LIFETIME_SECS;
    if !chrono_accepts_timestamp(exp) {
        return Err(500);
    }
    sign_token(user_id, username, exp as u64, secret)
}

/// Creates a token for the user that expires 24 hours from now, as the system clock
/// tells; status 500 when the expiry is out of range.
pub fn create_token(user_id: u128, username: &str, secret: &[u8]) -> (r: Result<String, u16>)
    ensures
        exists|now: i64| #[trigger] issued_at(user_id, username@, now, secret@, r),
{
    let now = now_secs();
    let r = create_token_at(user_id, username, now, secret);
    assert(issued_at(user_id, username@, now, secret@, r));
    r
}

/// A token issued at `now` is accepted, with the claims it was issued with, at every
/// time up to 24 hours later.
pub proof fn lemma_issued_token_accepted(
    user_id: u128,
    username: Seq<char>,
    now: i64,
    secret: Seq<u8>,
    token: String,
    later: u64,
)
    requires
        issued_at(user_id, username, now, secret, Ok::<String, u16>(token)),
        0 <= now,
        later <= now + TOKEN_LIFETIME_SECS,
    ensures
        token_outcome(jwt_claims(token@, secret), later) == Ok::<(u128, Seq<char>, u64), u16>(
            (user_id, username, (now + TOKEN_LIFETIME_SECS) as u64),
        ),
{
}

/// A token that expired at `exp` is refused at time `now` once the leeway has passed.
pub open spec fn token_expired(exp: u64, now: u64) -> bool {
    now >= EXPIRY_LEEWAY_SECS && exp < now - EXPIRY_LEEWAY_SECS
}

/// The outcome of checking decoded claims at time `now`: status 401 when the token was
/// refused or has expired, the claims otherwise.
pub open spec fn token_outcome(decoded: Option<(u128, Seq<char>, u64)>, now: u64) -> Result<
    (u128, Seq<char>, u64),
    u16,
> {
    match decoded {
        None => Err(401),
        Some(c) => if token_expired(c.2, now) {
            Err(401)
        } else {
            Ok(c)
        },
    }
}

/// Checks decoded claims at time `now`.
pub fn claims_if_fresh(decoded: Option<(u128, String, u64)>, now: u64) -> (r: Result<Claims, u16>)
    ensures
        ({
            let d = match decoded {
                Some((s, u, e)) => Some((s, u@, e)),
                None => None,
            };
            match r {
                Ok(c) => token_outcome(d, now) == Ok::<(u128, Seq<char>, u64), u16>(
                    (c.sub, c.username@, c.exp),
                ),
                Err(code) => token_outcome(d, now) == Err::<(u128, Seq<char>, u64), u16>(code),
            }
        }),
{
    match decoded {
        None => Err(401),
        Some((sub, username, exp)) => {
            if now >= EXPIRY_LEEWAY_SECS && exp < now - EXPIRY_LEEWAY_SECS {
                Err(401)
            } else {
                Ok(Claims { sub, username, exp })
            }
        },
    }
}

/// `r` is the outcome of verifying `token` with `secret` at time `now` (seconds since
/// the UNIX epoch).
pub open spec fn verified_at(token: Seq<char>, secret: Seq<u8>, now: u64, r: Result<Claims, u16>) -> bool {
    match r {
        Ok(c) => token_outcome(jwt_claims(token, secret), now) == Ok::<(u128, Seq<char>, u64), u16>(
            (c.sub, c.username@, c.exp),
        ),
        Err(code) => token_outcome(jwt_claims(token, secret), now) == Err::<(u128, Seq<char>, u64), u16>(
            code,
        ),
    }
}

/// Verifies a token at time `now`: its signature with `secret`, and its expiry. A
/// refused token is answered with status 401.
pub fn verify_token_at(token: &str, secret: &[u8], now: u64) -> (r: Result<Claims, u16>)
    ensures
        verified_at(token@, secret@, now, r),
{
    let decoded = jwt_decode(token, secret);
    claims_if_fresh(decoded, now)
}

/// Verifies a token: its signature with `secret`, and its expiry against the current
/// time. A refused token is answered with status 401.
pub fn verify_token(token: &str, secret: &[u8]) -> (r: Result<Claims, u16>)
    ensures
        exists|now: u64| #[trigger] verified_at(token@, secret@, now, r),
        r matches Ok(c) ==> jwt_claims(token@, secret@) == Some((c.sub, c.username@, c.exp)),
        jwt_claims(token@, secret@) is None ==> r == Err::<Claims, u16>(401),
        r matches Err(code) ==> code == 401,
{
    let now = current_timestamp();
    let r = verify_token_at(token, secret, now);
    assert(verified_at(token@, secret@, now, r));
    r
}

/// A token issued at `now` verifies, with the same secret, at every time up to 24
/// hours later, and names the user it was issued to.
pub proof fn lemma_issued_token_verifies(
    user_id: u128,
    username: Seq<char>,
    now: i64,
    secret: Seq<u8>,
    token: String,
    later: u64,
    r: Result<Claims, u16>,
)
    requires
        issued_at(user_id, username, now, secret, Ok::<String, u16>(token)),
        verified_at(token@, secret, later, r),
        0 <= now,
        later <= now + TOKEN_LIFETIME_SECS,
    ensures
        r matches Ok(c) && c.sub == user_id && c.username@ == username && c.exp == (now
            + TOKEN_LIFETIME_SECS) as u64,
{
    lemma_issued_token_accepted(user_id, username, now, secret, token, later);
}

/// The token of an `Authorization` header: what follows "Bearer ".
pub open spec fn bearer_spec(header: Seq<char>) -> Option<Seq<char>> {
    if starts_with_spec(header, "Bearer "@) {
        Some(header.subrange(7, header.len() as int))
    } else {
        None
    }
}

/// The token of an `Authorization` header, if it is a bearer header.
pub fn bearer_token(header: &str) -> (r: Option<&str>)
    ensures
        match r {
            Some(t) => bearer_spec(header@) == Some(t@),
            None => bearer_spec(header@) is None,
        },
{
    if starts_with(header, "Bearer ") {
        proof {
            reveal_strlit("Bearer ");
        }
        let n = header.unicode_len();
        Some(header.substring_char(7, n))
    } else {
        None
    }
}

/// The identity of a request from its `Authorization` header: status 401 when the
/// header is missing, is not a bearer header, or carries a refused token.
pub fn authorize(header: Option<&str>, secret: &[u8]) -> (r: Result<Claims, u16>)
    ensures
        match header {
            None => r == Err::<Claims, u16>(401),
            Some(h) => match bearer_spec(h@) {
                None => r == Err::<Claims, u16>(401),
                Some(t) => (exists|now: u64| #[trigger] verified_at(t, secret@, now, r)) && (
                r matches Ok(c) ==> jwt_claims(t, secret@) == Some((c.sub, c.username@, c.exp)))
                    && (jwt_claims(t, secret@) is None ==> r == Err::<Claims, u16>(401)) && (
                r matches Err(code) ==> code == 401),
            },
        },
{
    match header {
        None => Err(401),
        Some(h) => match bearer_token(h) {
            None => Err(401),
            Some(t) => verify_token(t, secret),
        },
    }
}

/// The identity of a WebSocket connection from its `token` query parameter: status 401
/// when the parameter is missing or carries a refused token.
pub fn authorize_query(token: Option<&str>, secret: &[u8]) -> (r: Result<Claims, u16>)
    ensures
        match token {
            None => r == Err::<Claims, u16>(401),
            Some(t) => (exists|now: u64| #[trigger] verified_at(t@, secret@, now, r)) && (
            r matches Err(code) ==> code == 401),
        },
{
    match token {
        None => Err(401),
        Some(t) => verify_token(t, secret),
    }
}

/// A signed token decodes to the claims it was signed with, and those claims are
/// accepted until the leeway after their expiry has passed.
pub proof fn lemma_token_roundtrip(
    sub: u128,
    username: Seq<char>,
    exp: u64,
    secret: Seq<u8>,
    token: Seq<char>,
    now: u64,
)
    requires
        jwt_claims(token, secret) == Some((sub, username, exp)),
        !token_expired(exp, now),
    ensures
        token_outcome(jwt_claims(token, secret), now) == Ok::<(u128, Seq<char>, u64), u16>(
            (sub, username, exp),
        ),
{
}

} // verus!
