//! The error answered to a client: an HTTP status and a message.
use vstd::prelude::*;

verus! {

/// An error answered to a client.
pub struct AppError {
    pub status: u16,
    pub message: String,
}

impl AppError {
    /// A malformed request (status 400).
    pub fn bad_request(message: String) -> (e: AppError)
        ensures
            e.status == 400,
            e.message == message,
    {
        AppError { status: 400, message }
    }

    /// Something asked for is missing (status 404).
    pub fn not_found(message: String) -> (e: AppError)
        ensures
            e.status == 404,
            e.message == message,
    {
        AppError { status: 404, message }
    }

    /// A failure on the server's side (status 500).
    pub fn internal(message: String) -> (e: AppError)
        ensures
            e.status == 500,
            e.message == message,
    {
        AppError { status: 500, message }
    }
}

} // verus!
