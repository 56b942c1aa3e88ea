//! Server-name-to-endpoint resolution for a federated, domain-based service
//! directory.
//!
//! Given a user-supplied server identifier (a bare hostname, a
//! `hostname:port` pair, or a literal IP address), this crate determines the
//! concrete network endpoint that must be contacted to reach that service,
//! following the ordered federation discovery protocol: literal address,
//! explicit host and port, well-known delegation, SRV record, default port.
//!
//! The discovery steps that need the network (the well-known HTTPS fetch and
//! the SRV lookup) are performed by the surrounding application; this crate
//! holds the classification, parsing and fallback logic, all of it verified.

pub mod address;
pub mod errors;
pub mod models;
pub mod resolver;
pub mod session;
pub mod templates;
pub mod text;
