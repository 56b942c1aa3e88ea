//! The failure kinds of the directory server.
//!
//! Resolution itself surfaces only `MatrixFederationWronglyConfigured`:
//! routine discovery failures (an unreachable well-known document, a missing
//! SRV record) are absences that fall through to the next discovery step and
//! never become errors.

use vstd::prelude::*;

verus! {

/// A terminal failure of the directory server.
#[derive(Clone, Copy, PartialEq, Eq, Structural, Debug)]
pub enum ServerError {
    /// A file the server needed could not be opened.
    FileMissing,
    /// An outbound request to another server failed.
    ReqwestError,
    /// The surrounding web framework reported an error.
    ActixWebError,
    /// A directory or path traversal attack was detected.
    PathTraversal,
    /// The federation discovery chain cannot produce an endpoint: the trusted
    /// resolver could not be set up, or a discovery answer was unusable.
    MatrixFederationWronglyConfigured,
}

/// The message that describes each failure.
pub open spec fn spec_message(e: ServerError) -> Seq<char> {
    match e {
        ServerError::FileMissing => "Unable to open file"@,
        ServerError::ReqwestError => "Unable to request another server"@,
        ServerError::ActixWebError => "A actix-web Error happened"@,
        ServerError::PathTraversal => "Possible Directory/Path Traversal Attack detected"@,
        ServerError::MatrixFederationWronglyConfigured => "You Matrix Server is not configured correctly"@,
    }
}

impl ServerError {
    /// The message shown for this failure.
    pub fn message(&self) -> (r: &'static str)
        ensures
            r@ == spec_message(*self),
    {
        match self {
            ServerError::FileMissing => "Unable to open file",
            ServerError::ReqwestError => "Unable to request another server",
            ServerError::ActixWebError => "A actix-web Error happened",
            ServerError::PathTraversal => "Possible Directory/Path Traversal Attack detected",
            ServerError::MatrixFederationWronglyConfigured => "You Matrix Server is not configured correctly",
        }
    }
}

} // verus!
