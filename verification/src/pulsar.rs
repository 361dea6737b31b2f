//! The message-broker producer's configuration.

use vstd::prelude::*;

verus! {

#[derive(Clone, Debug)]
pub struct PulsarSinkConfig {
    pub address: String,
    pub topic: String,
    pub encoding: Encoding,
    pub auth: Option<AuthConfig>,
}

/// Token authentication for the broker connection.
#[derive(Clone, Debug)]
pub struct AuthConfig {
    pub name: String,
    pub token: String,
}

#[derive(Clone, Copy, Debug, PartialEq, Eq)]
pub enum Encoding {
    Text,
    Json,
}

impl PulsarSinkConfig {
    pub fn new(address: String, topic: String, encoding: Encoding, auth: Option<AuthConfig>)
        -> (r: PulsarSinkConfig)
        ensures
            r.address@ == address@,
            r.topic@ == topic@,
            r.encoding == encoding,
            r.auth == auth,
    {
        PulsarSinkConfig { address, topic, encoding, auth }
    }
}

} // verus!
