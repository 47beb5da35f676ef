//! What the core knows about the backend it reports to.

use vstd::prelude::*;
use vstd::string::StringExecFns;

verus! {

/// Connection settings for the backend.
pub struct BackendConfig {
    pub host: String,
    pub user: String,
    pub password: String,
}

/// The URL of an API path under a base: the two joined by a slash.
pub fn _url(base: &str, path: &str) -> (r: String)
    ensures
        r@ == base@ + "/"@ + path@,
{
    let joined = String::from_str(base).concat("/").concat(path);
    proof {
        assert(joined@ =~= base@ + "/"@ + path@);
    }
    joined
}

} // verus!
