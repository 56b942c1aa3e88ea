//! The directory's business data: servers, categories, and the identity
//! provider's answer. Plain values; the database and serialization glue
//! around them lives outside this crate.

use vstd::prelude::*;

verus! {

/// The answer of the identity provider's authorization endpoint.
#[derive(Clone, Debug)]
pub struct OauthResponse {
    pub code: Option<String>,
    pub error: Option<String>,
    pub error_description: Option<String>,
}

/// How a directory-listed server admits new users.
#[derive(Clone, Copy, PartialEq, Eq, Structural, Debug)]
pub enum Registration {
    Open,
    Invite,
    Closed,
}

/// A federated server as listed in the directory.
#[derive(Clone, Debug)]
pub struct Server {
    pub name: String,
    pub url: String,
    pub server_name: String,
    pub logo_url: Option<String>,
    pub admins: Vec<String>,
    pub categories: Vec<String>,
    pub rules: String,
    pub description: String,
    pub registration_status: Registration,
}

/// A category row as the database stores it, before its servers are loaded.
#[derive(Clone, Debug)]
pub struct CategoryDB {
    pub name: String,
    pub description: Option<String>,
}

/// A category together with the servers listed under it.
#[derive(Clone, Debug)]
pub struct Category {
    pub name: String,
    pub description: Option<String>,
    pub servers: Vec<Server>,
}

} // verus!
