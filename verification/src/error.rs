//! The error surface handed to the serving layer: validation and not-found
//! conditions map to clear client-facing rejections, operational failures to
//! a generic internal failure that leaks no detail.

use vstd::prelude::*;
use crate::peers::SyncError;

verus! {

/// A request's failure, as the serving layer reports it.
#[derive(Debug)]
pub enum AppError {
    NotFound,
    Unauthorized,
    BadRequest(String),
    Internal(String),
}

impl AppError {
    /// The HTTP status this error maps to.
    pub fn status_code(&self) -> (r: u16)
        ensures
            self is NotFound ==> r == 404,
            self is Unauthorized ==> r == 401,
            self is BadRequest ==> r == 400,
            self is Internal ==> r == 500,
    {
        match self {
            AppError::NotFound => 404,
            AppError::Unauthorized => 401,
            AppError::BadRequest(_) => 400,
            AppError::Internal(_) => 500,
        }
    }

    /// The message shown to the client. An internal failure is reported
    /// generically: its detail is for the operator's log, never the client.
    pub fn client_message(&self) -> (r: String)
        ensures
            self is NotFound ==> r@ == "Not found"@,
            self is Unauthorized ==> r@ == "Unauthorized"@,
            self matches AppError::BadRequest(m) ==> r@ == m@,
            self is Internal ==> r@ == "Internal server error"@,
    {
        match self {
            AppError::NotFound => String::from_str("Not found"),
            AppError::Unauthorized => String::from_str("Unauthorized"),
            AppError::BadRequest(m) => m.clone(),
            AppError::Internal(_) => String::from_str("Internal server error"),
        }
    }

    /// How a synchronizer error surfaces: malformed input is a client
    /// rejection, a kernel failure an internal one.
    pub fn from_sync(e: SyncError) -> (r: AppError)
        ensures
            e is Kernel <==> r is Internal,
            !(e is Kernel) ==> r is BadRequest,
    {
        match e {
            SyncError::InvalidInterfaceName => AppError::BadRequest(
                String::from_str("invalid interface name")),
            SyncError::InvalidPublicKey => AppError::BadRequest(
                String::from_str("invalid public key")),
            SyncError::InvalidPresharedKey => AppError::BadRequest(
                String::from_str("invalid preshared key")),
            SyncError::InvalidAllowedIp => AppError::BadRequest(
                String::from_str("invalid allowed ip")),
            SyncError::InvalidPrivateKey => AppError::BadRequest(
                String::from_str("invalid private key")),
            SyncError::Kernel(msg) => AppError::Internal(msg),
        }
    }
}

} // verus!
