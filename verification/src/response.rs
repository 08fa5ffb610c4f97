//! The response envelope of the REST template and its error taxonomy.
//!
//! A reply is held as plain values: a status code and an envelope.  Turning
//! it into an HTTP response is left to the server that sends it.

use vstd::prelude::*;
use vstd::string::StringExecFns;

verus! {

/// The envelope every reply is wrapped in.
pub struct ApiResponse<T> {
    pub data: Option<T>,
    pub message: String,
    pub error: u16,
}

/// A reply: the HTTP status to answer with, and the envelope to send.
pub struct Reply<T> {
    pub status: u16,
    pub body: ApiResponse<T>,
}

/// What can go wrong while authenticating a request.
#[derive(PartialEq, Eq, Structural, Clone, Copy, Debug)]
pub enum AuthError {
    AdminsOnly,
    MissingHeader,
    InvalidHeader,
    MissingBearer,
    PasswordWrong,
    EmailTaken,
    EmailWrong,
}

/// What can go wrong while serving a request.  A failure of a collaborator
/// is held by the text that describes it.
#[derive(Debug)]
pub enum ApiError {
    Jwt(String),
    OpenSSL(String),
    Bcrypt(String),
    Database(String),
    Redis(String),
    RedisPool(String),
    SerdeJson(String),
    Uuid(String),
    Auth(AuthError),
    TooManyRequests,
    RegexValidationError(String),
    Custom(String),
}

/// `prefix` followed by `cause`.
fn prefixed(prefix: &str, cause: &String) -> (text: String)
    ensures
        text@ == prefix@ + cause@,
{
    String::from_str(prefix).concat(cause.as_str())
}

impl AuthError {
    /// The text shown for this error.
    pub open spec fn text(&self) -> Seq<char> {
        match self {
            AuthError::AdminsOnly => "Admin only section"@,
            AuthError::MissingHeader => "Authorization header is missing"@,
            AuthError::InvalidHeader => "Invalid authorization header format"@,
            AuthError::MissingBearer => "Error striping 'Bearer '"@,
            AuthError::PasswordWrong => "Password wrong"@,
            AuthError::EmailTaken => "Email is already taken"@,
            AuthError::EmailWrong => "Email wrong"@,
        }
    }

    /// The HTTP status that reports this error.
    pub open spec fn spec_status_code(&self) -> u16 {
        match self {
            AuthError::AdminsOnly | AuthError::MissingHeader => 401,
            _ => 400,
        }
    }

    /// The number by which clients tell this error from the others.
    pub open spec fn spec_error_number(&self) -> u16 {
        match self {
            AuthError::MissingHeader => 1001,
            AuthError::InvalidHeader => 1002,
            AuthError::MissingBearer => 1003,
            AuthError::PasswordWrong => 1004,
            AuthError::EmailTaken => 1005,
            AuthError::EmailWrong => 1006,
            AuthError::AdminsOnly => 1007,
        }
    }

    /// The text shown for this error.
    pub fn message(&self) -> (text: String)
        ensures
            text@ == self.text(),
    {
        match self {
            AuthError::AdminsOnly => String::from_str("Admin only section"),
            AuthError::MissingHeader => String::from_str("Authorization header is missing"),
            AuthError::InvalidHeader => String::from_str("Invalid authorization header format"),
            AuthError::MissingBearer => String::from_str("Error striping 'Bearer '"),
            AuthError::PasswordWrong => String::from_str("Password wrong"),
            AuthError::EmailTaken => String::from_str("Email is already taken"),
            AuthError::EmailWrong => String::from_str("Email wrong"),
        }
    }

    /// The HTTP status that reports this error.
    #[verifier::when_used_as_spec(spec_status_code)]
    pub fn status_code(&self) -> (code: u16)
        ensures
            code == self.spec_status_code(),
            code == 400 || code == 401,
    {
        match self {
            AuthError::AdminsOnly => 401,
            AuthError::MissingHeader => 401,
            AuthError::InvalidHeader => 400,
            AuthError::MissingBearer => 400,
            AuthError::PasswordWrong => 400,
            AuthError::EmailTaken => 400,
            AuthError::EmailWrong => 400,
        }
    }

    /// The number by which clients tell this error from the others.
    #[verifier::when_used_as_spec(spec_error_number)]
    pub fn error_number(&self) -> (number: u16)
        ensures
            number == self.spec_error_number(),
            1001 <= number <= 1007,
    {
        match self {
            AuthError::AdminsOnly => 1007,
            AuthError::MissingHeader => 1001,
            AuthError::InvalidHeader => 1002,
            AuthError::MissingBearer => 1003,
            AuthError::PasswordWrong => 1004,
            AuthError::EmailTaken => 1005,
            AuthError::EmailWrong => 1006,
        }
    }
}

impl ApiError {
    /// The text shown for this error: what failed, then the cause.
    pub open spec fn text(&self) -> Seq<char> {
        match self {
            ApiError::Jwt(e) => "JWT error: "@ + e@,
            ApiError::OpenSSL(e) => "OpenSSL error: "@ + e@,
            ApiError::Bcrypt(e) => "Bcrypt error: "@ + e@,
            ApiError::Database(e) => "Database error: "@ + e@,
            ApiError::Redis(e) => "Redis error: "@ + e@,
            ApiError::RedisPool(e) => "Redis pool error: "@ + e@,
            ApiError::SerdeJson(e) => "Serialization error: "@ + e@,
            ApiError::Uuid(e) => "UUID error: "@ + e@,
            ApiError::Auth(e) => "Auth error: "@ + e.text(),
            ApiError::TooManyRequests => "Too many requests"@,
            ApiError::RegexValidationError(msg) => "Regex validation error: "@ + msg@,
            ApiError::Custom(msg) => "Custom error: "@ + msg@,
        }
    }

    /// The HTTP status that reports this error.
    pub open spec fn spec_status_code(&self) -> u16 {
        match self {
            ApiError::Jwt(_) => 401,
            ApiError::OpenSSL(_) | ApiError::Bcrypt(_) | ApiError::Database(_) | ApiError::Redis(
                _,
            ) | ApiError::RedisPool(_) => 500,
            ApiError::Auth(e) => e.spec_status_code(),
            ApiError::TooManyRequests => 429,
            _ => 400,
        }
    }

    /// The number by which clients tell this error from the others.
    pub open spec fn spec_error_number(&self) -> u16 {
        match self {
            ApiError::Auth(e) => e.spec_error_number(),
            ApiError::Jwt(_) => 2001,
            ApiError::Bcrypt(_) => 2002,
            ApiError::OpenSSL(_) => 2003,
            ApiError::Database(_) => 3001,
            ApiError::Redis(_) => 3002,
            ApiError::RedisPool(_) => 3003,
            ApiError::Uuid(_) => 4001,
            ApiError::SerdeJson(_) => 4002,
            ApiError::TooManyRequests => 4290,
            ApiError::RegexValidationError(_) => 1000,
            ApiError::Custom(_) => 5001,
        }
    }

    /// The text shown for this error.
    pub fn message(&self) -> (text: String)
        ensures
            text@ == self.text(),
    {
        match self {
            ApiError::Jwt(e) => prefixed("JWT error: ", e),
            ApiError::OpenSSL(e) => prefixed("OpenSSL error: ", e),
            ApiError::Bcrypt(e) => prefixed("Bcrypt error: ", e),
            ApiError::Database(e) => prefixed("Database error: ", e),
            ApiError::Redis(e) => prefixed("Redis error: ", e),
            ApiError::RedisPool(e) => prefixed("Redis pool error: ", e),
            ApiError::SerdeJson(e) => prefixed("Serialization error: ", e),
            ApiError::Uuid(e) => prefixed("UUID error: ", e),
            ApiError::Auth(e) => {
                let cause = e.message();
                prefixed("Auth error: ", &cause)
            },
            ApiError::TooManyRequests => String::from_str("Too many requests"),
            ApiError::RegexValidationError(msg) => prefixed("Regex validation error: ", msg),
            ApiError::Custom(msg) => prefixed("Custom error: ", msg),
        }
    }

    /// The HTTP status that reports this error.
    #[verifier::when_used_as_spec(spec_status_code)]
    pub fn status_code(&self) -> (code: u16)
        ensures
            code == self.spec_status_code(),
            code == 400 || code == 401 || code == 429 || code == 500,
    {
        match self {
            ApiError::Jwt(_) => 401,
            ApiError::OpenSSL(_) => 500,
            ApiError::Bcrypt(_) => 500,
            ApiError::Database(_) => 500,
            ApiError::Redis(_) => 500,
            ApiError::RedisPool(_) => 500,
            ApiError::SerdeJson(_) => 400,
            ApiError::Uuid(_) => 400,
            ApiError::Auth(auth_error) => auth_error.status_code(),
            ApiError::TooManyRequests => 429,
            ApiError::RegexValidationError(_) => 400,
            ApiError::Custom(_) => 400,
        }
    }

    /// The number by which clients tell this error from the others.
    #[verifier::when_used_as_spec(spec_error_number)]
    pub fn error_number(&self) -> (number: u16)
        ensures
            number == self.spec_error_number(),
            number != 0,
    {
        match self {
            ApiError::Auth(auth_error) => auth_error.error_number(),
            ApiError::Jwt(_) => 2001,
            ApiError::OpenSSL(_) => 2003,
            ApiError::Bcrypt(_) => 2002,
            ApiError::Database(_) => 3001,
            ApiError::Redis(_) => 3002,
            ApiError::RedisPool(_) => 3003,
            ApiError::SerdeJson(_) => 4002,
            ApiError::Uuid(_) => 4001,
            ApiError::TooManyRequests => 4290,
            ApiError::RegexValidationError(_) => 1000,
            ApiError::Custom(_) => 5001,
        }
    }

    /// The reply that reports this error: its status, and an envelope
    /// without data that carries its text and its number.
    pub fn error_response(&self) -> (reply: Reply<()>)
        ensures
            reply.status == self.spec_status_code(),
            reply.body.data.is_none(),
            reply.body.message@ == self.text(),
            reply.body.error == self.spec_error_number(),
    {
        Reply {
            status: self.status_code(),
            body: ApiResponse { data: None, message: self.message(), error: self.error_number() },
        }
    }
}

impl From<AuthError> for ApiError {
    fn from(err: AuthError) -> (e: ApiError) {
        ApiError::Auth(err)
    }
}

impl vstd::std_specs::convert::FromSpecImpl<AuthError> for ApiError {
    open spec fn obeys_from_spec() -> bool {
        true
    }

    open spec fn from_spec(err: AuthError) -> ApiError {
        ApiError::Auth(err)
    }
}

impl<T> ApiResponse<T> {
    /// The reply to a request that was served: the given status, and an
    /// envelope that carries the data and the message, with error number 0.
    pub fn success(data: T, message: &str, status: u16) -> (reply: Reply<T>)
        ensures
            reply.status == status,
            reply.body.data == Some(data),
            reply.body.message@ == message@,
            reply.body.error == 0,
    {
        Reply {
            status,
            body: ApiResponse { data: Some(data), message: String::from_str(message), error: 0 },
        }
    }

    /// The reply that sends this envelope as it is, with status 200.
    pub fn respond_to(self) -> (reply: Reply<T>)
        ensures
            reply.status == 200,
            reply.body == self,
    {
        Reply { status: 200, body: self }
    }
}

} // verus!
