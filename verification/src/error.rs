//! The crate's error type and its mapping to HTTP status codes.

use vstd::prelude::*;

verus! {

/// Everything that can go wrong between accepting a request and answering it.
/// Variants that carry a `String` keep a short description for the server log.
#[derive(Debug, Clone)]
pub enum QpacktError {
    /// The configuration file is missing a key or holds an unusable value.
    InvalidConfig(String),
    /// An input could not be read.
    UnableToRead(String),
    /// The password hasher refused the input or the stored hash.
    UnableToHashPassword(String),
    /// No upstream could serve the request: the upstream failed or no
    /// version is eligible.
    ProxyError,
    /// The store refused an operation.
    DatabaseError(String),
    /// A site upload's multipart stream was malformed.
    MultipartUploadError(String),
    /// An uploaded site archive could not be unpacked or laid out.
    UnableToProcessSite(String),
    /// A value could not be encoded or decoded.
    SerializationError,
    /// The caller presented no valid admin token.
    Forbidden,
}

pub type QpacktResult<T> = Result<T, QpacktError>;

impl QpacktError {
    /// The HTTP status that surfaces this error to a client: 403 for a
    /// failed authorization, 500 for everything else.
    pub fn status_code(&self) -> (code: u16)
        ensures
            code == if self is Forbidden {
                403u16
            } else {
                500u16
            },
    {
        match self {
            QpacktError::Forbidden => 403,
            _ => 500,
        }
    }
}

} // verus!
