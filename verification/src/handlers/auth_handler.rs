//! Registration and login.
use vstd::prelude::*;

use crate::auth::{bcrypt_verdict, create_token, hash_password, issued_at, verify_password, LoginRes};
use crate::clock::{is_v4_id, new_id, now_micros};
use crate::error::AppError;
use crate::models::User;
use crate::text::{is_blank, is_blank_spec};

verus! {

/// A request to register a user.
#[derive(Debug, Clone)]
pub struct RegisterReq {
    pub username: String,
    pub password: String,
}

/// Refuses a registration with a blank user name or a password shorter than 6 bytes
/// (in its UTF-8 encoding).
pub fn validate_register(req: &RegisterReq) -> (r: Result<(), AppError>)
    ensures
        is_blank_spec(req.username@) ==> (r matches Err(AppError::BadRequest(m)) && m@
            == "用户名不能为空"@),
        !is_blank_spec(req.username@) && (vstd::utf8::encode_utf8(req.password@).len() as usize) < 6 ==> (r matches Err(
            AppError::BadRequest(m),
        ) && m@ == "密码长度至少 6 位"@),
        !is_blank_spec(req.username@) && (vstd::utf8::encode_utf8(req.password@).len() as usize) >= 6 ==> r is Ok,
{
    if is_blank(req.username.as_str()) {
        return Err(AppError::BadRequest(String::from_str("用户名不能为空")));
    }
    if req.password.as_str().len() < 6 {
        return Err(AppError::BadRequest(String::from_str("密码长度至少 6 位")));
    }
    Ok(())
}

/// Refuses a user name that is already taken (`existing` is the stored user of that
/// name, if any).
pub fn ensure_username_free(existing: Option<&User>) -> (r: Result<(), AppError>)
    ensures
        existing is Some ==> (r matches Err(AppError::BadRequest(m)) && m@ == "用户名已存在"@),
        existing is None ==> r is Ok,
{
    match existing {
        Some(_) => Err(AppError::BadRequest(String::from_str("用户名已存在"))),
        None => Ok(()),
    }
}

/// Makes the user that a registration creates: a fresh identifier, the requested name,
/// and a hash of the password that verifies against it. A failure of the hashing is an
/// internal error.
pub fn new_user(req: &RegisterReq) -> (r: Result<User, AppError>)
    ensures
        r matches Ok(u) ==> u.username == req.username && bcrypt_verdict(
            req.password@,
            u.password_hash@,
        ) == Ok::<bool, Seq<char>>(true) && is_v4_id(u.id),
        r matches Err(e) ==> e is InternalMsg,
{
    match hash_password(req.password.as_str()) {
        Err(e) => {
            let mut m = String::from_str("密码加密失败: ");
            m.append(e.as_str());
            Err(AppError::InternalMsg(m))
        },
        Ok(password_hash) => Ok(
            User {
                id: new_id(),
                username: req.username.clone(),
                password_hash,
                created_at: now_micros(),
            },
        ),
    }
}

/// Why a registration is refused before the store is consulted, if it is: a blank user
/// name, or a password shorter than 6 bytes, checked in that order.
pub open spec fn register_refusal(req: RegisterReq) -> Option<Seq<char>> {
    if is_blank_spec(req.username@) {
        Some("用户名不能为空"@)
    } else if (vstd::utf8::encode_utf8(req.password@).len() as usize) < 6 {
        Some("密码长度至少 6 位"@)
    } else {
        None
    }
}

/// Checks a registration and makes its user (`existing` is the stored user of the
/// requested name, if any): refused with a blank user name, a password shorter than 6
/// bytes, or a name that is taken, in that order.
pub fn register(req: &RegisterReq, existing: Option<&User>) -> (r: Result<User, AppError>)
    ensures
        register_refusal(*req) matches Some(m) ==> (r matches Err(AppError::BadRequest(x)) && x@
            == m),
        register_refusal(*req) is None && existing is Some ==> (r matches Err(
            AppError::BadRequest(m),
        ) && m@ == "用户名已存在"@),
        register_refusal(*req) is None && existing is None ==> match r {
            Ok(u) => u.username == req.username && bcrypt_verdict(req.password@, u.password_hash@)
                == Ok::<bool, Seq<char>>(true) && is_v4_id(u.id),
            Err(e) => e is InternalMsg,
        },
{
    validate_register(req)?;
    ensure_username_free(existing)?;
    new_user(req)
}

/// The outcome of a login with `password` for the stored user of the requested name
/// (absent when there is none): the user when the password matches its hash; "wrong
/// name or password" when there is no such user or the password does not match; an
/// internal error when the stored hash cannot be read.
pub open spec fn login_outcome(user: Option<User>, password: Seq<char>) -> Result<User, Seq<char>> {
    match user {
        None => Err("用户名或密码错误"@),
        Some(u) => match bcrypt_verdict(password, u.password_hash@) {
            Ok(true) => Ok(u),
            Ok(false) => Err("用户名或密码错误"@),
            Err(e) => Err("密码验证失败: "@ + e),
        },
    }
}

/// Checks a login with `password` against the stored user of the requested name.
pub fn authenticate(user: Option<User>, password: &str) -> (r: Result<User, AppError>)
    ensures
        match login_outcome(user, password@) {
            Ok(u) => r == Ok::<User, AppError>(u),
            Err(m) => match user {
                Some(u) if bcrypt_verdict(password@, u.password_hash@) is Err => r matches Err(
                    AppError::InternalMsg(x),
                ) && x@ == m,
                _ => r matches Err(AppError::BadRequest(x)) && x@ == m,
            },
        },
{
    match user {
        None => Err(AppError::BadRequest(String::from_str("用户名或密码错误"))),
        Some(u) => match verify_password(password, u.password_hash.as_str()) {
            Err(e) => {
                let mut m = String::from_str("密码验证失败: ");
                m.append(e.as_str());
                Err(AppError::InternalMsg(m))
            },
            Ok(valid) => {
                if valid {
                    Ok(u)
                } else {
                    Err(AppError::BadRequest(String::from_str("用户名或密码错误")))
                }
            },
        },
    }
}

/// The answer to a successful login or registration: a token for the user, signed
/// with `secret` and valid for 24 hours from now; an internal error when no token can
/// be made.
pub fn login_response(user: &User, secret: &[u8]) -> (r: Result<LoginRes, AppError>)
    ensures
        r matches Ok(res) ==> res.user_id == user.id && res.username == user.username && exists|
            now: i64,
        | #[trigger] issued_at(user.id, user.username@, now, secret@, Ok::<String, u16>(res.token)),
        r matches Err(e) ==> (e matches AppError::InternalMsg(m) && m@ == "生成 token 失败"@)
            && exists|now: i64| #[trigger] issued_at(user.id, user.username@, now, secret@, Err::<String, u16>(500)),
{
    let made = create_token(user.id, user.username.as_str(), secret);
    let ghost now = choose|now: i64| #[trigger] issued_at(user.id, user.username@, now, secret@, made);
    match made {
        Err(_) => Err(AppError::InternalMsg(String::from_str("生成 token 失败"))),
        Ok(token) => {
            let res = LoginRes { token, user_id: user.id, username: user.username.clone() };
            assert(issued_at(user.id, user.username@, now, secret@, Ok::<String, u16>(res.token)));
            Ok(res)
        },
    }
}

/// A login with `password` for the stored user of the requested name: the answer with a
/// token for the user when the password matches.
pub fn login(user: Option<User>, password: &str, secret: &[u8]) -> (r: Result<LoginRes, AppError>)
    ensures
        match login_outcome(user, password@) {
            Ok(u) => (r matches Ok(res) && res.user_id == u.id && res.username == u.username
                && exists|now: i64| #[trigger] issued_at(u.id, u.username@, now, secret@, Ok::<String, u16>(res.token)))
                || (r matches Err(AppError::InternalMsg(m)) && m@ == "生成 token 失败"@
                && exists|now: i64| #[trigger] issued_at(u.id, u.username@, now, secret@, Err::<String, u16>(500))),
            Err(m) => match user {
                Some(u) if bcrypt_verdict(password@, u.password_hash@) is Err => r matches Err(
                    AppError::InternalMsg(x),
                ) && x@ == m,
                _ => r matches Err(AppError::BadRequest(x)) && x@ == m,
            },
        },
{
    let u = authenticate(user, password)?;
    login_response(&u, secret)
}

/// A user that registered with a password is let in when logging in with the same
/// password.
pub proof fn lemma_registered_password_accepted(u: User, password: Seq<char>)
    requires
        bcrypt_verdict(password, u.password_hash@) == Ok::<bool, Seq<char>>(true),
    ensures
        login_outcome(Some(u), password) == Ok::<User, Seq<char>>(u),
{
}

} // verus!
