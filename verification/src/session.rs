//! The login check: what a session must hold for its user to count as
//! signed in.

use vstd::prelude::*;

verus! {

/// Whether a session's stored identity is complete: the user is logged in
/// exactly when both the user id and the server name are present.
pub fn check_logged_in(mxid: Option<&String>, server: Option<&String>) -> (r: bool)
    ensures
        r == (mxid is Some && server is Some),
{
    match (mxid, server) {
        (Some(_), Some(_)) => true,
        _ => false,
    }
}

} // verus!
