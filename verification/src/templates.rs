//! The values each page of the directory is rendered from. The rendering
//! itself is presentation glue and lives outside this crate.

use vstd::prelude::*;
use crate::models::{Category, Server};

verus! {

/// The landing page: every category, and the one currently selected, if any.
#[derive(Clone, Debug)]
pub struct IndexTemplate {
    pub categories: Vec<Category>,
    pub current_category: Option<Category>,
}

/// A single server's details page.
#[derive(Clone, Debug)]
pub struct DetailsTemplate {
    pub server: Server,
}

/// The login page.
#[derive(Clone, Debug)]
pub struct LoginTemplate {}

} // verus!
