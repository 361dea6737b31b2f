//! The Unix-domain socket input's configuration.

use vstd::prelude::*;

verus! {

#[derive(Clone, Debug)]
pub struct UnixConfig {
    pub path: String,
    pub max_length: usize,
    pub host_key: Option<String>,
}

fn default_max_length() -> (r: usize)
    ensures
        r == 102400,
{
    100 * 1024
}

impl UnixConfig {
    pub fn new(path: String) -> (r: UnixConfig)
        ensures
            r.path@ == path@,
            r.max_length == 102400,
            r.host_key is None,
    {
        UnixConfig { path, max_length: default_max_length(), host_key: None }
    }
}

} // verus!
