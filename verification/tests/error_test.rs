use mutao::error::AppError;

fn body_error(body: &str) -> serde_json::Value {
    let json: serde_json::Value = serde_json::from_str(body).unwrap();
    json["error"].clone()
}

#[test]
fn test_not_found_returns_404() {
    let (status, body) = AppError::NotFound.into_response();
    assert_eq!(status, 404);
    assert_eq!(body_error(&body), "资源不存在");
}

#[test]
fn test_bad_request_returns_400() {
    let (status, body) = AppError::BadRequest("title 不能为空".into()).into_response();
    assert_eq!(status, 400);
    assert_eq!(body_error(&body), "title 不能为空");
}

#[test]
fn test_internal_msg_returns_500() {
    let (status, body) = AppError::InternalMsg("密码加密失败".into()).into_response();
    assert_eq!(status, 500);
    assert_eq!(body_error(&body), "服务器内部错误");
}

#[test]
fn test_serialization_returns_500() {
    let err = serde_json::from_str::<serde_json::Value>("not-json").unwrap_err();
    let (status, body) = AppError::Serialization(err.to_string()).into_response();
    assert_eq!(status, 500);
    assert_eq!(body_error(&body), "服务器内部错误");
}

#[test]
fn forbidden_returns_403_with_its_message() {
    let (status, body) = AppError::Forbidden("无权修改他人物品".into()).into_response();
    assert_eq!(status, 403);
    assert_eq!(body, "{\"error\":\"无权修改他人物品\"}");
}

#[test]
fn error_body_escapes_json() {
    let (_, body) = AppError::BadRequest("a \"quoted\"\\ line\n\u{1}".into()).into_response();
    assert_eq!(body_error(&body), "a \"quoted\"\\ line\n\u{1}");
    assert_eq!(body, "{\"error\":\"a \\\"quoted\\\"\\\\ line\\n\\u0001\"}");
}

#[test]
fn error_messages_describe_errors() {
    assert_eq!(AppError::Serialization("eof".into()).message(), "序列化错误: eof");
    assert_eq!(AppError::Internal("pool closed".into()).message(), "服务器内部错误");
    assert_eq!(AppError::InternalMsg("x".into()).message(), "x");
}
