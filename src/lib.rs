//! Decision layer of a reverse proxy: per-client sliding-window admission,
//! round-robin backend rotation with a bounded linear retry offset, and the
//! per-request lifecycle that ties them together.

pub mod config;
pub mod proxy;
pub mod rate_limit;
pub mod rotation;

pub use config::{
    load_config, Config, ConfigError, MetricsConfig, RateLimitConfig, ServerConfig, UpstreamsConfig,
};
pub use proxy::{
    backend_header_value, client_key, status_label, Admission, ProxyContext, ProxyFailure,
    ReverseProxy,
};
pub use rate_limit::RateLimiter;
pub use rotation::{offset_index, BackendSelector};
