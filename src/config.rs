//! The shape of the proxy's configuration, and the checks that decide
//! whether a configuration can be started with.

use vstd::prelude::*;

verus! {

#[derive(Debug, Clone)]
pub struct ServerConfig {
    pub listen: String,
    pub workers: usize,
}

#[derive(Debug, Clone)]
pub struct UpstreamsConfig {
    pub backends: Vec<String>,
}

#[derive(Debug, Clone)]
pub struct RateLimitConfig {
    pub max_requests: u64,
    pub window_seconds: u64,
    pub key_extractor: String,
}

#[derive(Debug, Clone)]
pub struct MetricsConfig {
    pub enabled: bool,
    pub endpoint: String,
}

#[derive(Debug, Clone)]
pub struct Config {
    pub server: ServerConfig,
    pub upstreams: UpstreamsConfig,
    pub rate_limit: RateLimitConfig,
    pub metrics: MetricsConfig,
}

/// Why a configuration cannot be started with.
#[derive(Debug, Clone, Copy, PartialEq, Eq, Structural)]
pub enum ConfigError {
    NoBackends,
    ZeroMaxRequests,
    ZeroWindow,
}

impl Config {
    /// A configuration the proxy can run on: at least one backend, and a
    /// positive request limit and window.
    pub open spec fn is_valid(&self) -> bool {
        &&& self.upstreams.backends@.len() > 0
        &&& self.rate_limit.max_requests > 0
        &&& self.rate_limit.window_seconds > 0
    }
}

/// Accepts a configuration read at start-up, or names the first rule it
/// breaks (backends first, then the request limit, then the window).
pub fn load_config(raw: Config) -> (r: Result<Config, ConfigError>)
    ensures
        raw.is_valid() <==> r.is_ok(),
        r matches Ok(c) ==> c == raw,
        r == Err::<Config, ConfigError>(ConfigError::NoBackends) <==> raw.upstreams.backends@.len()
            == 0,
        r == Err::<Config, ConfigError>(ConfigError::ZeroMaxRequests) <==> (
        raw.upstreams.backends@.len() > 0 && raw.rate_limit.max_requests == 0),
        r == Err::<Config, ConfigError>(ConfigError::ZeroWindow) <==> (raw.upstreams.backends@.len()
            > 0 && raw.rate_limit.max_requests > 0 && raw.rate_limit.window_seconds == 0),
{
    if raw.upstreams.backends.len() == 0 {
        Err(ConfigError::NoBackends)
    } else if raw.rate_limit.max_requests == 0 {
        Err(ConfigError::ZeroMaxRequests)
    } else if raw.rate_limit.window_seconds == 0 {
        Err(ConfigError::ZeroWindow)
    } else {
        Ok(raw)
    }
}

} // verus!
