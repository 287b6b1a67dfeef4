use vstd::prelude::*;

verus! {

/// The error taxonomy that crosses into the HTTP layer. Store failures are
/// wrapped into `DatabaseError`, authentication failures into `BadRequest`,
/// and configuration or signing failures into `InternalError`; the carried
/// string is a generic message, never the detailed internal reason.
#[derive(Debug)]
pub enum Errors {
    DatabaseError(String),
    BadRequest(String),
    InternalError(String),
}

pub type Result<T> = core::result::Result<T, Errors>;

impl Errors {
    /// The HTTP status this error crosses the wire with: store failures are
    /// a 500, rejected requests a 400, configuration and signing failures a
    /// 501.
    pub fn status(&self) -> (s: u16)
        ensures
            match self {
                Errors::DatabaseError(_) => s == 500,
                Errors::BadRequest(_) => s == 400,
                Errors::InternalError(_) => s == 501,
            },
    {
        match self {
            Errors::DatabaseError(_) => 500,
            Errors::BadRequest(_) => 400,
            Errors::InternalError(_) => 501,
        }
    }
}

/// Why the access guard denied a request. The distinction (in particular
/// expired vs. malformed vs. invalid) exists for logging only; externally
/// every one of these collapses to the same status, see `status`.
#[derive(Clone, Copy, PartialEq, Eq, Structural, Debug)]
pub enum AuthError {
    /// No authorization header was presented.
    MissingCredentials,
    /// The header does not carry the required "Bearer " scheme prefix.
    MalformedHeader,
    /// The token is structurally invalid or its signature does not verify.
    InvalidToken,
    /// The signature verifies but the token's expiry lies in the past.
    TokenExpired,
}

impl AuthError {
    /// The externally observable HTTP status: 401 for every guard denial,
    /// whatever the internal reason was.
    pub fn status(&self) -> (s: u16)
        ensures
            s == 401,
    {
        401
    }

    /// The generic message echoed to the client for this denial.
    pub fn message(&self) -> (m: String)
        ensures
            *self == AuthError::MissingCredentials ==> m@ == "missing credentials"@,
            *self == AuthError::MalformedHeader ==> m@ == "malformed token"@,
            *self == AuthError::InvalidToken ==> m@ == "invalid token"@,
            *self == AuthError::TokenExpired ==> m@ == "token expired"@,
    {
        match self {
            AuthError::MissingCredentials => String::from_str("missing credentials"),
            AuthError::MalformedHeader => String::from_str("malformed token"),
            AuthError::InvalidToken => String::from_str("invalid token"),
            AuthError::TokenExpired => String::from_str("token expired"),
        }
    }

    /// Collapse a guard denial into the generic request error that crosses
    /// into the HTTP layer.
    pub fn to_errors(&self) -> (e: Errors)
        ensures
            e matches Errors::BadRequest(m) && m@ == self.message_spec(),
    {
        Errors::BadRequest(self.message())
    }

    /// The message `message` returns, as a spec-level value.
    pub open spec fn message_spec(&self) -> Seq<char> {
        match self {
            AuthError::MissingCredentials => "missing credentials"@,
            AuthError::MalformedHeader => "malformed token"@,
            AuthError::InvalidToken => "invalid token"@,
            AuthError::TokenExpired => "token expired"@,
        }
    }
}

} // verus!
