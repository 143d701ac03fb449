//! The errors that request handling reports, and how each is answered.
use vstd::prelude::*;

use crate::text::push_json_string;
use crate::text::json_string;

verus! {

/// An error of request handling.
///
/// `Internal` carries the text of a storage error and `Serialization` the text of a
/// serialization error.
#[derive(Debug, Clone)]
pub enum AppError {
    NotFound,
    BadRequest(String),
    Forbidden(String),
    Internal(String),
    InternalMsg(String),
    Serialization(String),
}

/// The text that describes an error.
pub open spec fn error_text(e: AppError) -> Seq<char> {
    match e {
        AppError::NotFound => "资源不存在"@,
        AppError::BadRequest(m) => m@,
        AppError::Forbidden(m) => m@,
        AppError::Internal(_) => "服务器内部错误"@,
        AppError::InternalMsg(m) => m@,
        AppError::Serialization(m) => "序列化错误: "@ + m@,
    }
}

/// The HTTP status an error is answered with.
pub open spec fn error_status(e: AppError) -> u16 {
    match e {
        AppError::NotFound => 404,
        AppError::BadRequest(_) => 400,
        AppError::Forbidden(_) => 403,
        _ => 500,
    }
}

/// The message a client is shown: the error's own text for client errors, a fixed
/// text for every internal error, so that no internal detail leaks.
pub open spec fn client_message(e: AppError) -> Seq<char> {
    match e {
        AppError::Internal(_) | AppError::InternalMsg(_) | AppError::Serialization(_) => "服务器内部错误"@,
        _ => error_text(e),
    }
}

/// The JSON body of an error answer: `{"error": <message>}`.
pub open spec fn error_body(e: AppError) -> Seq<char> {
    "{"@ + json_string("error"@) + ":"@ + json_string(client_message(e)) + "}"@
}

impl AppError {
    /// The text that describes the error.
    pub fn message(&self) -> (s: String)
        ensures
            s@ == error_text(*self),
    {
        match self {
            AppError::NotFound => String::from_str("资源不存在"),
            AppError::BadRequest(m) => m.clone(),
            AppError::Forbidden(m) => m.clone(),
            AppError::Internal(_) => String::from_str("服务器内部错误"),
            AppError::InternalMsg(m) => m.clone(),
            AppError::Serialization(m) => {
                let mut s = String::from_str("序列化错误: ");
                s.append(m.as_str());
                s
            },
        }
    }

    /// The HTTP status the error is answered with.
    pub fn status_code(&self) -> (code: u16)
        ensures
            code == error_status(*self),
    {
        match self {
            AppError::NotFound => 404,
            AppError::BadRequest(_) => 400,
            AppError::Forbidden(_) => 403,
            _ => 500,
        }
    }

    /// The message the client is shown.
    pub fn client_message(&self) -> (s: String)
        ensures
            s@ == client_message(*self),
    {
        match self {
            AppError::Internal(_) | AppError::InternalMsg(_) | AppError::Serialization(_) => {
                String::from_str("服务器内部错误")
            },
            _ => self.message(),
        }
    }

    /// The answer to the error: its HTTP status and its JSON body.
    pub fn into_response(self) -> (r: (u16, String))
        ensures
            r.0 == error_status(self),
            r.1@ == error_body(self),
    {
        let status = self.status_code();
        let message = self.client_message();
        let mut body = String::from_str("{");
        push_json_string(&mut body, "error");
        body.append(":");
        push_json_string(&mut body, message.as_str());
        body.append("}");
        (status, body)
    }
}

/// Whatever an internal error carries, the client sees the same status and body.
pub proof fn lemma_internal_errors_hide_details(a: AppError, b: AppError)
    requires
        a is Internal || a is InternalMsg || a is Serialization,
        b is Internal || b is InternalMsg || b is Serialization,
    ensures
        error_status(a) == error_status(b) == 500,
        error_body(a) == error_body(b),
{
}

} // verus!
