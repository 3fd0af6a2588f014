//! What a request handler answers with.

use vstd::prelude::*;

verus! {

/// HTTP status of a request the gateway cannot serve as asked.
pub const STATUS_BAD_REQUEST: u16 = 400;

/// HTTP status of a request that failed inside the gateway or behind it.
pub const STATUS_INTERNAL_SERVER_ERROR: u16 = 500;

/// A failed request: the message for the caller and the HTTP status it goes out with.
#[derive(Debug)]
pub struct ResponseError {
    pub error: String,
    pub status: u16,
}

/// The envelope of every successful answer.
#[derive(Debug)]
pub struct ResponseData<T> {
    pub data: T,
}

impl<T> ResponseData<T> {
    /// Wraps `data` in the envelope.
    pub fn build(data: T) -> (response: Self)
        ensures
            response.data == data,
    {
        Self { data }
    }
}

} // verus!
