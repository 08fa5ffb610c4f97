use create_woragis_api::response::{ApiError, ApiResponse, AuthError};

fn every_auth_error() -> Vec<AuthError> {
    vec![
        AuthError::AdminsOnly,
        AuthError::MissingHeader,
        AuthError::InvalidHeader,
        AuthError::MissingBearer,
        AuthError::PasswordWrong,
        AuthError::EmailTaken,
        AuthError::EmailWrong,
    ]
}

#[test]
fn auth_error_texts() {
    assert_eq!(AuthError::AdminsOnly.message(), "Admin only section");
    assert_eq!(AuthError::MissingHeader.message(), "Authorization header is missing");
    assert_eq!(AuthError::InvalidHeader.message(), "Invalid authorization header format");
    assert_eq!(AuthError::MissingBearer.message(), "Error striping 'Bearer '");
    assert_eq!(AuthError::PasswordWrong.message(), "Password wrong");
    assert_eq!(AuthError::EmailTaken.message(), "Email is already taken");
    assert_eq!(AuthError::EmailWrong.message(), "Email wrong");
}

#[test]
fn auth_error_status_codes() {
    assert_eq!(AuthError::AdminsOnly.status_code(), 401);
    assert_eq!(AuthError::MissingHeader.status_code(), 401);
    assert_eq!(AuthError::InvalidHeader.status_code(), 400);
    assert_eq!(AuthError::MissingBearer.status_code(), 400);
    assert_eq!(AuthError::PasswordWrong.status_code(), 400);
    assert_eq!(AuthError::EmailTaken.status_code(), 400);
    assert_eq!(AuthError::EmailWrong.status_code(), 400);
}

#[test]
fn auth_error_numbers() {
    let numbers: Vec<u16> = every_auth_error().iter().map(|e| e.error_number()).collect();
    assert_eq!(numbers, vec![1007, 1001, 1002, 1003, 1004, 1005, 1006]);
}

#[test]
fn api_error_status_codes() {
    let cause = || "boom".to_string();
    assert_eq!(ApiError::Jwt(cause()).status_code(), 401);
    assert_eq!(ApiError::OpenSSL(cause()).status_code(), 500);
    assert_eq!(ApiError::Bcrypt(cause()).status_code(), 500);
    assert_eq!(ApiError::Database(cause()).status_code(), 500);
    assert_eq!(ApiError::Redis(cause()).status_code(), 500);
    assert_eq!(ApiError::RedisPool(cause()).status_code(), 500);
    assert_eq!(ApiError::SerdeJson(cause()).status_code(), 400);
    assert_eq!(ApiError::Uuid(cause()).status_code(), 400);
    assert_eq!(ApiError::TooManyRequests.status_code(), 429);
    assert_eq!(ApiError::RegexValidationError(cause()).status_code(), 400);
    assert_eq!(ApiError::Custom(cause()).status_code(), 400);
    for e in every_auth_error() {
        assert_eq!(ApiError::Auth(e).status_code(), e.status_code());
    }
}

#[test]
fn api_error_numbers() {
    let cause = || "boom".to_string();
    assert_eq!(ApiError::Jwt(cause()).error_number(), 2001);
    assert_eq!(ApiError::Bcrypt(cause()).error_number(), 2002);
    assert_eq!(ApiError::OpenSSL(cause()).error_number(), 2003);
    assert_eq!(ApiError::Database(cause()).error_number(), 3001);
    assert_eq!(ApiError::Redis(cause()).error_number(), 3002);
    assert_eq!(ApiError::RedisPool(cause()).error_number(), 3003);
    assert_eq!(ApiError::Uuid(cause()).error_number(), 4001);
    assert_eq!(ApiError::SerdeJson(cause()).error_number(), 4002);
    assert_eq!(ApiError::TooManyRequests.error_number(), 4290);
    assert_eq!(ApiError::RegexValidationError(cause()).error_number(), 1000);
    assert_eq!(ApiError::Custom(cause()).error_number(), 5001);
    for e in every_auth_error() {
        assert_eq!(ApiError::Auth(e).error_number(), e.error_number());
    }
}

#[test]
fn api_error_texts() {
    let cause = || "boom".to_string();
    assert_eq!(ApiError::Jwt(cause()).message(), "JWT error: boom");
    assert_eq!(ApiError::OpenSSL(cause()).message(), "OpenSSL error: boom");
    assert_eq!(ApiError::Bcrypt(cause()).message(), "Bcrypt error: boom");
    assert_eq!(ApiError::Database(cause()).message(), "Database error: boom");
    assert_eq!(ApiError::Redis(cause()).message(), "Redis error: boom");
    assert_eq!(ApiError::RedisPool(cause()).message(), "Redis pool error: boom");
    assert_eq!(ApiError::SerdeJson(cause()).message(), "Serialization error: boom");
    assert_eq!(ApiError::Uuid(cause()).message(), "UUID error: boom");
    assert_eq!(ApiError::Auth(AuthError::EmailTaken).message(), "Auth error: Email is already taken");
    assert_eq!(ApiError::TooManyRequests.message(), "Too many requests");
    assert_eq!(ApiError::RegexValidationError(cause()).message(), "Regex validation error: boom");
    assert_eq!(ApiError::Custom(String::new()).message(), "Custom error: ");
}

#[test]
fn error_response_carries_status_text_and_number() {
    let reply = ApiError::Auth(AuthError::AdminsOnly).error_response();
    assert_eq!(reply.status, 401);
    assert!(reply.body.data.is_none());
    assert_eq!(reply.body.message, "Auth error: Admin only section");
    assert_eq!(reply.body.error, 1007);

    let reply = ApiError::TooManyRequests.error_response();
    assert_eq!(reply.status, 429);
    assert_eq!(reply.body.message, "Too many requests");
    assert_eq!(reply.body.error, 4290);

    let reply = ApiError::Database("connection refused".to_string()).error_response();
    assert_eq!(reply.status, 500);
    assert_eq!(reply.body.message, "Database error: connection refused");
    assert_eq!(reply.body.error, 3001);
}

#[test]
fn auth_errors_become_api_errors() {
    let e = ApiError::from(AuthError::PasswordWrong);
    assert!(matches!(e, ApiError::Auth(AuthError::PasswordWrong)));
    let e: ApiError = AuthError::MissingBearer.into();
    assert_eq!(e.error_number(), 1003);
}

#[test]
fn success_wraps_the_data() {
    let reply = ApiResponse::success(vec![1u8, 2, 3], "created", 201);
    assert_eq!(reply.status, 201);
    assert_eq!(reply.body.data, Some(vec![1u8, 2, 3]));
    assert_eq!(reply.body.message, "created");
    assert_eq!(reply.body.error, 0);
}

#[test]
fn respond_to_answers_with_200() {
    let envelope = ApiResponse { data: Some(7u32), message: "seven".to_string(), error: 0 };
    let reply = envelope.respond_to();
    assert_eq!(reply.status, 200);
    assert_eq!(reply.body.data, Some(7));
    assert_eq!(reply.body.message, "seven");
    assert_eq!(reply.body.error, 0);
}
