//! Configuration surface of the engine's backends.

use vstd::prelude::*;

verus! {

/// Default connection timeout towards the Valkey server, in seconds.
pub const VALKEY_CONN_TIMEOUT: u64 = 1;

/// Default response timeout towards the Valkey server, in seconds.
pub const VALKEY_RESP_TIMEOUT: u64 = 1;

/// Settings for the Valkey user store.
#[derive(Debug, Clone)]
pub struct ValkeySettings {
    pub valkey_host: String,
    pub valkey_port: u16,
    pub valkey_conn_timeout: Option<u64>,
    pub valkey_resp_timeout: Option<u64>,
    /// Namespace id for the user hash; when absent, the handler draws one.
    pub valkey_hash_id: Option<u64>,
}

impl ValkeySettings {
    /// The connection timeout to configure, in seconds.
    pub fn conn_timeout_secs(&self) -> (r: u64)
        ensures
            r == (match self.valkey_conn_timeout {
                Some(t) => t,
                None => VALKEY_CONN_TIMEOUT,
            }),
    {
        match self.valkey_conn_timeout {
            Some(t) => t,
            None => VALKEY_CONN_TIMEOUT,
        }
    }

    /// The response timeout to configure, in seconds.
    pub fn resp_timeout_secs(&self) -> (r: u64)
        ensures
            r == (match self.valkey_resp_timeout {
                Some(t) => t,
                None => VALKEY_RESP_TIMEOUT,
            }),
    {
        match self.valkey_resp_timeout {
            Some(t) => t,
            None => VALKEY_RESP_TIMEOUT,
        }
    }
}

/// Settings of the client cache subsystem.
#[derive(Debug, Clone, Copy, PartialEq, Eq, Structural)]
pub struct ClientlibSettings {
    pub enable_cache: bool,
    pub cache_queue_size: u16,
    pub cache_shards: u16,
}

} // verus!
