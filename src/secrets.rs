//! Configuration secrets the server reads at startup.

use vstd::prelude::*;

verus! {

/// Credentials read from the secrets file.
#[derive(Debug, Clone)]
pub struct Secrets {
    pub surreal_db_password: String,
}

} // verus!
