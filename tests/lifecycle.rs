use edge_proxy::{
    backend_header_value, client_key, load_config, status_label, Admission, Config, ConfigError,
    MetricsConfig, ProxyContext, RateLimitConfig, ReverseProxy, ServerConfig, UpstreamsConfig,
};

fn config(backends: &[&str], max_requests: u64, window_seconds: u64, metrics: bool) -> Config {
    Config {
        server: ServerConfig { listen: "0.0.0.0:8080".to_string(), workers: 4 },
        upstreams: UpstreamsConfig { backends: backends.iter().map(|b| b.to_string()).collect() },
        rate_limit: RateLimitConfig {
            max_requests,
            window_seconds,
            key_extractor: "client_ip".to_string(),
        },
        metrics: MetricsConfig { enabled: metrics, endpoint: "/metrics".to_string() },
    }
}

#[test]
fn admission_limits_per_client() {
    let mut proxy = ReverseProxy::new(config(&["a"], 2, 60, true));
    let client = || Some("10.0.0.1:5000".to_string());
    assert_eq!(proxy.request_filter("/", client(), 50), Admission::Admit);
    assert_eq!(proxy.request_filter("/x", client(), 50), Admission::Admit);
    assert_eq!(proxy.request_filter("/", client(), 51), Admission::Reject);
    assert_eq!(Admission::Reject.response_status(), Some(429));
    assert_eq!(Admission::Admit.response_status(), None);
}

#[test]
fn unknown_clients_share_one_window() {
    let mut proxy = ReverseProxy::new(config(&["a"], 1, 60, true));
    assert_eq!(proxy.request_filter("/", None, 0), Admission::Admit);
    assert_eq!(proxy.request_filter("/", None, 0), Admission::Reject);
    assert_eq!(proxy.request_filter("/", Some("1.2.3.4:1".to_string()), 0), Admission::Admit);
}

#[test]
fn metrics_path_is_served_before_rate_limiting() {
    let mut proxy = ReverseProxy::new(config(&["a"], 1, 60, true));
    assert!(proxy.is_metrics_request("/metrics"));
    assert_eq!(proxy.request_filter("/metrics", None, 0), Admission::ServeMetrics);
    assert_eq!(proxy.request_filter("/metrics", None, 0), Admission::ServeMetrics);
    assert_eq!(Admission::ServeMetrics.response_status(), Some(200));
    assert_eq!(proxy.request_filter("/", None, 0), Admission::Admit);
}

#[test]
fn metrics_path_is_proxied_when_disabled() {
    let mut proxy = ReverseProxy::new(config(&["a"], 5, 60, false));
    assert!(!proxy.is_metrics_request("/metrics"));
    assert_eq!(proxy.request_filter("/metrics", None, 0), Admission::Admit);
}

#[test]
fn retry_walks_past_first_pick_then_gives_up() {
    let mut proxy = ReverseProxy::new(config(&["a", "b", "c"], 10, 60, true));
    let mut other = proxy.new_ctx();
    assert_eq!(proxy.upstream_peer(&mut other), "a");

    let mut ctx = proxy.new_ctx();
    assert_eq!(proxy.upstream_peer(&mut ctx), "b");
    assert_eq!(ctx.backend_index, 1);

    proxy.fail_to_connect(&mut ctx);
    assert_eq!(proxy.fail_to_proxy(&ctx).error_code, 0);
    assert_eq!(proxy.upstream_peer(&mut ctx), "c");

    proxy.fail_to_connect(&mut ctx);
    assert_eq!(proxy.fail_to_proxy(&ctx).error_code, 0);
    assert_eq!(proxy.upstream_peer(&mut ctx), "a");
    assert_eq!(ctx.backend_index, 1);

    proxy.error_while_proxy(&mut ctx);
    assert_eq!(ctx.failure_count, 3);
    let failure = proxy.fail_to_proxy(&ctx);
    assert_eq!(failure.error_code, 503);
    assert!(!failure.can_reuse_downstream);
}

#[test]
fn retries_do_not_move_the_rotation() {
    let mut proxy = ReverseProxy::new(config(&["a", "b", "c"], 10, 60, true));
    let mut ctx = proxy.new_ctx();
    assert_eq!(proxy.upstream_peer(&mut ctx), "a");
    proxy.fail_to_connect(&mut ctx);
    assert_eq!(proxy.upstream_peer(&mut ctx), "b");
    let mut fresh = proxy.new_ctx();
    assert_eq!(proxy.upstream_peer(&mut fresh), "b");
}

#[test]
fn single_backend_never_retries() {
    let mut proxy = ReverseProxy::new(config(&["http://only:1"], 10, 60, true));
    let mut ctx = proxy.new_ctx();
    assert_eq!(proxy.upstream_peer(&mut ctx), "http://only:1");
    proxy.fail_to_connect(&mut ctx);
    assert_eq!(proxy.fail_to_proxy(&ctx).error_code, 503);
}

#[test]
fn first_failure_with_no_failures_is_terminal() {
    let proxy = ReverseProxy::new(config(&["a", "b"], 10, 60, true));
    let ctx = ProxyContext::new();
    assert_eq!(proxy.fail_to_proxy(&ctx).error_code, 503);
}

#[test]
fn response_names_the_backend() {
    let mut proxy = ReverseProxy::new(config(&["http://127.0.0.1:8081"], 10, 60, true));
    let mut ctx = proxy.new_ctx();
    assert_eq!(proxy.response_filter(&ctx), None);
    proxy.upstream_peer(&mut ctx);
    assert_eq!(proxy.response_filter(&ctx), Some("backend_127.0.0.1_8081".to_string()));
}

#[test]
fn backend_header_strips_scheme_and_colons() {
    assert_eq!(backend_header_value("http://10.0.0.2:9000"), "backend_10.0.0.2_9000");
    assert_eq!(backend_header_value("host:80"), "backend_host_80");
    assert_eq!(backend_header_value("a/http://b"), "backend_a/b");
    assert_eq!(backend_header_value("httphttp://://x"), "backend_http_//x");
    assert_eq!(backend_header_value(""), "backend_");
}

#[test]
fn client_key_falls_back_to_unknown() {
    assert_eq!(client_key(None), "unknown");
    assert_eq!(client_key(Some("1.2.3.4:80".to_string())), "1.2.3.4:80");
}

#[test]
fn status_labels() {
    assert_eq!(status_label(Some(200)), "200");
    assert_eq!(status_label(Some(5)), "5");
    assert_eq!(status_label(Some(503)), "503");
    assert_eq!(status_label(Some(65535)), "65535");
    assert_eq!(status_label(None), "0");
}

#[test]
fn load_config_accepts_valid() {
    let c = load_config(config(&["a"], 1, 1, true)).unwrap();
    assert_eq!(c.upstreams.backends, vec!["a".to_string()]);
    assert_eq!(c.server.workers, 4);
}

#[test]
fn load_config_rejects_each_rule() {
    assert_eq!(load_config(config(&[], 0, 0, true)).unwrap_err(), ConfigError::NoBackends);
    assert_eq!(load_config(config(&["a"], 0, 0, true)).unwrap_err(), ConfigError::ZeroMaxRequests);
    assert_eq!(load_config(config(&["a"], 1, 0, true)).unwrap_err(), ConfigError::ZeroWindow);
}
