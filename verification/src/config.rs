//! Server configuration values. Loading them from a file is the
//! surrounding application's business; the engine takes them as plain
//! values.

use vstd::prelude::*;

verus! {

/// Why a configuration value could not be read.
#[derive(Debug)]
pub enum ConfigError {
    /// The key is missing.
    NotFound(String),
    /// The key holds a value of the wrong type.
    WrongType(String),
}

/// The secret key sessions are signed with.
#[derive(Clone, Debug)]
pub struct SecretKey {
    bytes: Vec<u8>,
}

impl SecretKey {
    /// The key's bytes.
    pub closed spec fn spec_bytes(&self) -> Seq<u8> {
        self.bytes@
    }

    /// A key over the given bytes.
    pub fn new(bytes: Vec<u8>) -> (r: SecretKey)
        ensures
            r.spec_bytes() == bytes@,
    {
        SecretKey { bytes }
    }

    /// The key's bytes.
    pub fn as_bytes(&self) -> (r: &[u8])
        ensures
            r@ == self.spec_bytes(),
    {
        self.bytes.as_slice()
    }
}

/// What a server needs from its configuration: the secret key and the
/// session time-to-live.
pub struct ServerConfig {
    secret_key: SecretKey,
    ttl: u32,
}

impl ServerConfig {
    /// The configured secret key.
    pub closed spec fn spec_secret_key(&self) -> SecretKey {
        self.secret_key
    }

    /// The configured time-to-live, in seconds.
    pub closed spec fn spec_ttl(&self) -> u32 {
        self.ttl
    }

    /// A configuration from the given values.
    pub fn new(secret_key: SecretKey, ttl: u32) -> (r: ServerConfig)
        ensures
            r.spec_secret_key() == secret_key,
            r.spec_ttl() == ttl,
    {
        ServerConfig { secret_key, ttl }
    }

    /// The configured secret key.
    pub fn secret_key(&self) -> (r: &SecretKey)
        ensures
            r == &self.spec_secret_key(),
    {
        &self.secret_key
    }

    /// The configured time-to-live, in seconds.
    pub fn ttl(&self) -> (r: u32)
        ensures
            r == self.spec_ttl(),
    {
        self.ttl
    }
}

} // verus!
