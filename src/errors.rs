use vstd::prelude::*;

verus! {

/// The error taxonomy of the service.
#[derive(Debug)]
pub enum SentinelError {
    /// A failure of the tuple store.
    DatabaseError { message: String },
    /// A malformed request, filter or consistency token.
    ValidationError { message: String },
    /// A policy denial surfaced as an error.
    PermissionError { message: String },
    /// A body that could not be encoded or decoded.
    SerializationError { message: String },
    /// A failure of the result cache.
    CacheError { message: String },
    /// A programming error or an exhausted internal resource.
    InternalError { message: String },
}

pub type SentinelResult<T> = Result<T, SentinelError>;

impl SentinelError {
    pub open spec fn message_of(&self) -> Seq<char> {
        match self {
            SentinelError::DatabaseError { message } => message@,
            SentinelError::ValidationError { message } => message@,
            SentinelError::PermissionError { message } => message@,
            SentinelError::SerializationError { message } => message@,
            SentinelError::CacheError { message } => message@,
            SentinelError::InternalError { message } => message@,
        }
    }

    pub fn validation_error(message: &str) -> (r: Self)
        ensures
            r is ValidationError,
            r.message_of() == message@,
    {
        SentinelError::ValidationError { message: message.to_string() }
    }

    pub fn permission_error(message: &str) -> (r: Self)
        ensures
            r is PermissionError,
            r.message_of() == message@,
    {
        SentinelError::PermissionError { message: message.to_string() }
    }

    pub fn internal_error(message: &str) -> (r: Self)
        ensures
            r is InternalError,
            r.message_of() == message@,
    {
        SentinelError::InternalError { message: message.to_string() }
    }

    pub fn database_error(message: &str) -> (r: Self)
        ensures
            r is DatabaseError,
            r.message_of() == message@,
    {
        SentinelError::DatabaseError { message: message.to_string() }
    }

    pub fn cache_error(message: &str) -> (r: Self)
        ensures
            r is CacheError,
            r.message_of() == message@,
    {
        SentinelError::CacheError { message: message.to_string() }
    }

    /// The HTTP status that an error of this kind is answered with.
    pub fn status_code(&self) -> (r: u16)
        ensures
            r == match self {
                SentinelError::ValidationError { .. } => 400u16,
                SentinelError::SerializationError { .. } => 400u16,
                SentinelError::PermissionError { .. } => 403u16,
                _ => 500u16,
            },
    {
        match self {
            SentinelError::ValidationError { .. } => 400,
            SentinelError::SerializationError { .. } => 400,
            SentinelError::PermissionError { .. } => 403,
            _ => 500,
        }
    }

    /// The message carried by the error.
    pub fn message(&self) -> (r: &String)
        ensures
            r@ == self.message_of(),
    {
        match self {
            SentinelError::DatabaseError { message } => message,
            SentinelError::ValidationError { message } => message,
            SentinelError::PermissionError { message } => message,
            SentinelError::SerializationError { message } => message,
            SentinelError::CacheError { message } => message,
            SentinelError::InternalError { message } => message,
        }
    }
}

} // verus!
