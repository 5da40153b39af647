//! Errors of the cache.

use vstd::prelude::*;

use crate::text::{chars_of, concat, decimal, decimal_chars, string_of};

verus! {

/// Why a cache operation failed.  Failures of the file system, of JSON
/// encoding and of HTTP carry the message of the underlying error.
#[derive(Debug, Clone, PartialEq, Eq)]
pub enum CacheError {
    InvalidBucket(String),
    EmptyKey,
    Io(String),
    Json(String),
    Http(String),
    HttpStatus(u16),
    Poisoned,
    InvalidState(String),
}

pub type CacheResult<T> = Result<T, CacheError>;

/// The human-readable text of an error.
pub open spec fn error_message(e: CacheError) -> Seq<char> {
    match e {
        CacheError::InvalidBucket(b) => "Unsupported cache bucket: "@ + b@,
        CacheError::EmptyKey => "Cache key must not be empty"@,
        CacheError::Io(m) => "Cache I/O error: "@ + m@,
        CacheError::Json(m) => "Cache JSON error: "@ + m@,
        CacheError::Http(m) => "Cache HTTP error: "@ + m@,
        CacheError::HttpStatus(s) => "Remote download failed with status "@ + decimal(s as nat),
        CacheError::Poisoned => "Cache state lock was poisoned"@,
        CacheError::InvalidState(m) => "Invalid cache state: "@ + m@,
    }
}

fn prefixed(prefix: &str, rest: &String) -> (res: String)
    ensures
        res@ == prefix@ + rest@,
{
    let p = chars_of(prefix);
    let r = chars_of(rest.as_str());
    string_of(&concat(&p, &r))
}

impl CacheError {
    /// The text that the error displays.
    pub fn message(&self) -> (res: String)
        ensures
            res@ == error_message(*self),
    {
        match self {
            CacheError::InvalidBucket(b) => prefixed("Unsupported cache bucket: ", b),
            CacheError::EmptyKey => {
                let s = "Cache key must not be empty";
                string_of(&chars_of(s))
            },
            CacheError::Io(m) => prefixed("Cache I/O error: ", m),
            CacheError::Json(m) => prefixed("Cache JSON error: ", m),
            CacheError::Http(m) => prefixed("Cache HTTP error: ", m),
            CacheError::HttpStatus(s) => {
                let p = chars_of("Remote download failed with status ");
                let d = decimal_chars(*s as u64);
                string_of(&concat(&p, &d))
            },
            CacheError::Poisoned => {
                let s = "Cache state lock was poisoned";
                string_of(&chars_of(s))
            },
            CacheError::InvalidState(m) => prefixed("Invalid cache state: ", m),
        }
    }
}

} // verus!
