//! The HTTP event collector's configuration and request-target assembly.

use crate::batch::BatchConfig;
use crate::service::RequestConfig;
use vstd::prelude::*;

verus! {

#[derive(Clone, Debug)]
pub struct HoneycombConfig {
    pub api_key: String,
    pub dataset: String,
    pub batch: BatchConfig,
    pub request: RequestConfig,
}

/// The collector's batch endpoint.
pub open spec fn spec_host() -> Seq<char> {
    "https://api.honeycomb.io/1/batch"@
}

impl HoneycombConfig {
    /// The batch endpoint with the dataset appended.
    pub fn build_uri(&self) -> (r: String)
        ensures
            r@ == spec_host() + "/"@ + self.dataset@,
    {
        let mut uri = String::new();
        uri.append("https://api.honeycomb.io/1/batch");
        uri.append("/");
        uri.append(self.dataset.as_str());
        uri
    }
}

/// The collector's default batching: a hundred kibibytes of request body,
/// a one second flush deadline.
pub fn default_batch_settings() -> (r: crate::batch::BatchSettings)
    ensures
        r.limit == crate::batch::SizeLimit::MaxBytes(102400),
        r.timeout_secs == 1,
{
    crate::batch::BatchSettings {
        limit: crate::batch::SizeLimit::MaxBytes(102400),
        timeout_secs: 1,
    }
}

/// Whether the collector's health probe counts as healthy. The probe
/// sends an empty batch, which a healthy collector refuses as a bad
/// request; an unauthorized answer or anything else means the check
/// failed.
pub fn healthcheck_ok(status: u16) -> (r: bool)
    ensures
        r <==> status == 400,
{
    status == 400
}

} // verus!
