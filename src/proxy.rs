//! The per-request lifecycle: admission, backend selection with bounded
//! retry, response annotation and failure handling, over one rate limiter
//! and one backend rotation shared by all requests.

use crate::config::{Config, MetricsConfig};
use crate::rate_limit::{admit_window, RateLimiter};
use crate::rotation::{next_cursor, offset_index, retry_allowed, retry_index, BackendSelector};
use vstd::prelude::*;
use vstd::string::{StrSliceExecFns, StringExecFns};

verus! {

/// The scheme prefix removed from a backend address when naming it.
pub open spec fn scheme() -> Seq<char> {
    seq!['h', 't', 't', 'p', ':', '/', '/']
}

/// The name of a backend address: every `http://` (taken left to right,
/// without overlap) removed, and every remaining `:` turned into `_`.
pub open spec fn backend_label(s: Seq<char>) -> Seq<char>
    decreases s.len(),
{
    if s.len() == 0 {
        s
    } else if s.len() >= 7 && s.subrange(0, 7) == scheme() {
        backend_label(s.subrange(7, s.len() as int))
    } else {
        seq![if s[0] == ':' { '_' } else { s[0] }] + backend_label(s.subrange(1, s.len() as int))
    }
}

/// The client identity used for rate limiting.
pub open spec fn client_key_of(addr: Option<Seq<char>>) -> Seq<char> {
    match addr {
        Some(a) => a,
        None => seq!['u', 'n', 'k', 'n', 'o', 'w', 'n'],
    }
}

/// Whether `s` holds `http://` at character position `i`.
fn scheme_at(s: &str, i: usize) -> (r: bool)
    requires
        i <= s@.len(),
    ensures
        r == (i + 7 <= s@.len() && s@.subrange(i as int, i + 7) == scheme()),
{
    let n = s.unicode_len();
    if n - i < 7 {
        return false;
    }
    let pat = "http://";
    proof {
        reveal_strlit("http://");
    }
    assert(pat@ == scheme());
    let mut j: usize = 0;
    while j < 7
        invariant
            j <= 7,
            i + 7 <= s@.len(),
            n == s@.len(),
            pat@ == scheme(),
            s@.subrange(i as int, i + j) == scheme().subrange(0, j as int),
        decreases 7 - j,
    {
        if s.get_char(i + j) != pat.get_char(j) {
            return false;
        }
        assert(s@.subrange(i as int, i + j + 1) =~= scheme().subrange(0, j + 1));
        j = j + 1;
    }
    assert(scheme().subrange(0, 7) =~= scheme());
    true
}

/// The value of the header that names the backend that served a response:
/// `backend_` followed by the backend's label.
pub fn backend_header_value(backend: &str) -> (r: String)
    ensures
        r@ == seq!['b', 'a', 'c', 'k', 'e', 'n', 'd', '_'] + backend_label(backend@),
{
    let prefix = "backend_";
    proof {
        reveal_strlit("backend_");
    }
    let mut out = String::from_str(prefix);
    let n = backend.unicode_len();
    let ghost s = backend@;
    let mut i: usize = 0;
    assert(s.subrange(0, n as int) =~= s);
    while i < n
        invariant
            i <= n,
            n == s.len(),
            s == backend@,
            seq!['b', 'a', 'c', 'k', 'e', 'n', 'd', '_'] + backend_label(s) == out@
                + backend_label(s.subrange(i as int, n as int)),
        decreases n - i,
    {
        let ghost rest = s.subrange(i as int, n as int);
        if scheme_at(backend, i) {
            assert(rest.subrange(0, 7) =~= s.subrange(i as int, i + 7));
            assert(rest.subrange(7, rest.len() as int) =~= s.subrange(i + 7, n as int));
            i = i + 7;
        } else {
            assert(rest.len() >= 7 ==> rest.subrange(0, 7) =~= s.subrange(i as int, i + 7));
            assert(rest.subrange(1, rest.len() as int) =~= s.subrange(i + 1, n as int));
            let c = backend.get_char(i);
            if c == ':' {
                let us = "_";
                proof {
                    reveal_strlit("_");
                }
                out.append(us);
            } else {
                out.append(backend.substring_char(i, i + 1));
                assert(s.subrange(i as int, i + 1) =~= seq![s[i as int]]);
            }
            i = i + 1;
        }
    }
    assert(s.subrange(n as int, n as int) =~= Seq::<char>::empty());
    assert(out@ + Seq::<char>::empty() =~= out@);
    out
}

fn digit_str(d: u16) -> (r: &'static str)
    requires
        d < 10,
    ensures
        r@ == seq![digit_char(d as nat)],
{
    proof {
        reveal_strlit("0");
        reveal_strlit("1");
        reveal_strlit("2");
        reveal_strlit("3");
        reveal_strlit("4");
        reveal_strlit("5");
        reveal_strlit("6");
        reveal_strlit("7");
        reveal_strlit("8");
        reveal_strlit("9");
    }
    let r = if d == 0 {
        "0"
    } else if d == 1 {
        "1"
    } else if d == 2 {
        "2"
    } else if d == 3 {
        "3"
    } else if d == 4 {
        "4"
    } else if d == 5 {
        "5"
    } else if d == 6 {
        "6"
    } else if d == 7 {
        "7"
    } else if d == 8 {
        "8"
    } else {
        "9"
    };
    assert(r@ =~= seq![digit_char(d as nat)]);
    r
}

fn decimal_string(n: u16) -> (r: String)
    ensures
        r@ == decimal(n as nat),
    decreases n,
{
    if n < 10 {
        String::from_str(digit_str(n))
    } else {
        let mut s = decimal_string(n / 10);
        s.append(digit_str(n % 10));
        s
    }
}

/// The status label recorded in the latency metrics for a request.
pub fn status_label(status: Option<u16>) -> (r: String)
    ensures
        r@ == status_label_of(status),
{
    match status {
        Some(code) => decimal_string(code),
        None => {
            proof {
                reveal_strlit("0");
            }
            String::from_str("0")
        },
    }
}

/// The client identity of a request: its transport address, or `unknown`
/// when the host has none.
pub fn client_key(addr: Option<String>) -> (r: String)
    ensures
        r@ == client_key_of(
            match addr {
                Some(a) => Some(a@),
                None => None,
            },
        ),
{
    match addr {
        Some(a) => a,
        None => {
            let s = "unknown";
            proof {
                reveal_strlit("unknown");
            }
            String::from_str(s)
        },
    }
}

/// The error code handed to the host after a failed attempt: 0 asks for
/// another attempt, 503 ends the request.
pub open spec fn failure_code(failures: int, len: int) -> u16 {
    if retry_allowed(failures, len) {
        0
    } else {
        503
    }
}

/// A request is retried at most `len - 1` times: the host is asked for
/// another attempt after exactly the failures `1..len - 1`, and the
/// `len`-th failure, like every later one, ends the request with 503.
pub proof fn lemma_retries_terminate(len: int)
    requires
        len > 0,
    ensures
        forall|k: int| 0 <= k ==> (#[trigger] failure_code(k, len) == 0 <==> 1 <= k <= len - 1),
        failure_code(len, len) == 503,
        forall|k: int| k >= len ==> #[trigger] failure_code(k, len) == 503,
{
}

/// The decimal digits of `n`, most significant first.
pub open spec fn decimal(n: nat) -> Seq<char>
    decreases n,
{
    if n < 10 {
        seq![digit_char(n)]
    } else {
        decimal(n / 10) + seq![digit_char(n % 10)]
    }
}

pub open spec fn digit_char(d: nat) -> char {
    if d < 10 {
        (d + '0' as nat) as char
    } else {
        '?'
    }
}

/// The status label recorded for a request: the final status in decimal,
/// or `0` when no response was produced.
pub open spec fn status_label_of(status: Option<u16>) -> Seq<char> {
    match status {
        Some(code) => decimal(code as nat),
        None => seq!['0'],
    }
}

/// Per-request state, owned by one request for its whole lifecycle.
pub struct ProxyContext {
    /// Index of the backend chosen on the request's first attempt.
    pub backend_index: usize,
    /// Upstream failures seen so far.
    pub failure_count: usize,
    /// The address chosen for the current attempt.
    pub selected_backend: Option<String>,
}

impl ProxyContext {
    pub fn new() -> (r: Self)
        ensures
            r.backend_index == 0,
            r.failure_count == 0,
            r.selected_backend is None,
    {
        ProxyContext { backend_index: 0, failure_count: 0, selected_backend: None }
    }

    /// Records one more upstream failure; the count stops at `usize::MAX`.
    pub fn record_failure(&mut self)
        ensures
            final(self).failure_count == if old(self).failure_count < usize::MAX {
                old(self).failure_count + 1
            } else {
                old(self).failure_count as int
            },
            final(self).backend_index == old(self).backend_index,
            final(self).selected_backend == old(self).selected_backend,
    {
        if self.failure_count < usize::MAX {
            self.failure_count = self.failure_count + 1;
        }
    }
}

/// What the admission step decided for a request.
#[derive(Debug, Clone, Copy, PartialEq, Eq, Structural)]
pub enum Admission {
    /// The request is for the metrics endpoint: answer it with the metrics.
    ServeMetrics,
    /// The client is over its limit: answer 429.
    Reject,
    /// Go on to backend selection.
    Admit,
}

impl Admission {
    /// The status of the response the proxy itself sends, if it sends one.
    pub fn response_status(&self) -> (r: Option<u16>)
        ensures
            r == match *self {
                Admission::ServeMetrics => Some(200u16),
                Admission::Reject => Some(429u16),
                Admission::Admit => None::<u16>,
            },
    {
        match self {
            Admission::ServeMetrics => Some(200),
            Admission::Reject => Some(429),
            Admission::Admit => None,
        }
    }
}

/// What the host is told after an attempt failed.
#[derive(Debug, Clone, Copy, PartialEq, Eq, Structural)]
pub struct ProxyFailure {
    /// 0 to retry on another backend, otherwise the status to answer with.
    pub error_code: u16,
    pub can_reuse_downstream: bool,
}

/// The proxy's shared decision state: one rate limiter, one backend
/// rotation, and the metrics endpoint settings.
pub struct ReverseProxy {
    selector: BackendSelector,
    rate_limiter: RateLimiter,
    metrics: MetricsConfig,
}

impl ReverseProxy {
    pub closed spec fn spec_selector(&self) -> BackendSelector {
        self.selector
    }

    pub closed spec fn spec_limiter(&self) -> RateLimiter {
        self.rate_limiter
    }

    pub closed spec fn spec_metrics_enabled(&self) -> bool {
        self.metrics.enabled
    }

    pub closed spec fn spec_metrics_endpoint(&self) -> Seq<char> {
        self.metrics.endpoint@
    }

    pub closed spec fn wf(&self) -> bool {
        self.selector.wf()
    }

    pub fn new(config: Config) -> (r: Self)
        requires
            config.upstreams.backends@.len() > 0,
        ensures
            r.wf(),
            r.spec_selector().spec_cursor() == 0,
            r.spec_selector().spec_len() == config.upstreams.backends@.len(),
            forall|i: int|
                0 <= i < config.upstreams.backends@.len() ==> #[trigger] r.spec_selector().backend(i)
                    == config.upstreams.backends@[i]@,
            r.spec_limiter().spec_max_requests() == config.rate_limit.max_requests,
            r.spec_limiter().spec_window_seconds() == config.rate_limit.window_seconds,
            forall|k: Seq<char>| #[trigger] r.spec_limiter().window_of(k) == Seq::<u64>::empty(),
            r.spec_metrics_enabled() == config.metrics.enabled,
            r.spec_metrics_endpoint() == config.metrics.endpoint@,
    {
        let Config { server: _, upstreams, rate_limit, metrics } = config;
        ReverseProxy {
            selector: BackendSelector::new(upstreams.backends),
            rate_limiter: RateLimiter::new(rate_limit.max_requests, rate_limit.window_seconds),
            metrics,
        }
    }

    pub fn new_ctx(&self) -> (r: ProxyContext)
        ensures
            r.backend_index == 0,
            r.failure_count == 0,
            r.selected_backend is None,
    {
        ProxyContext::new()
    }

    /// Whether `path` is answered with the metrics.
    pub fn is_metrics_request(&self, path: &str) -> (r: bool)
        ensures
            r == (self.spec_metrics_enabled() && path@ == self.spec_metrics_endpoint()),
    {
        if !self.metrics.enabled {
            return false;
        }
        let p = path.to_owned();
        p == self.metrics.endpoint
    }

    /// The admission step for a request to `path` from `client_addr` at
    /// `now` (seconds since the epoch). The metrics endpoint is answered
    /// before any rate limiting; every other request is charged to its
    /// client's window.
    pub fn request_filter(&mut self, path: &str, client_addr: Option<String>, now: u64) -> (r:
        Admission)
        ensures
            final(self).spec_selector() == old(self).spec_selector(),
            final(self).spec_metrics_enabled() == old(self).spec_metrics_enabled(),
            final(self).spec_metrics_endpoint() == old(self).spec_metrics_endpoint(),
            (old(self).spec_metrics_enabled() && path@ == old(self).spec_metrics_endpoint()) ==> (r
                == Admission::ServeMetrics && final(self).spec_limiter() == old(self).spec_limiter()),
            !(old(self).spec_metrics_enabled() && path@ == old(self).spec_metrics_endpoint()) ==> ({
                let key = client_key_of(
                    match client_addr {
                        Some(a) => Some(a@),
                        None => None,
                    },
                );
                let lim = old(self).spec_limiter();
                &&& r != Admission::ServeMetrics
                &&& (final(self).spec_limiter().window_of(key), r == Admission::Admit)
                    == admit_window(
                    lim.window_of(key),
                    now,
                    lim.spec_max_requests(),
                    lim.spec_window_seconds(),
                )
                &&& final(self).spec_limiter().spec_max_requests() == lim.spec_max_requests()
                &&& final(self).spec_limiter().spec_window_seconds() == lim.spec_window_seconds()
                &&& forall|k: Seq<char>|
                    k != key ==> #[trigger] final(self).spec_limiter().window_of(k) == lim.window_of(
                        k,
                    )
            }),
    {
        if self.is_metrics_request(path) {
            return Admission::ServeMetrics;
        }
        let key = client_key(client_addr);
        if self.rate_limiter.check_rate_limit(key.as_str(), now) {
            Admission::Admit
        } else {
            Admission::Reject
        }
    }

    /// Chooses the backend for the current attempt. A first attempt (or one
    /// after every backend has failed) takes a fresh rotation slot and
    /// records its index; a retry goes `failure_count` places past the
    /// request's first backend, without moving the rotation.
    pub fn upstream_peer(&mut self, ctx: &mut ProxyContext) -> (r: String)
        requires
            old(self).wf(),
        ensures
            final(self).wf(),
            final(self).spec_limiter() == old(self).spec_limiter(),
            final(self).spec_metrics_enabled() == old(self).spec_metrics_enabled(),
            final(self).spec_metrics_endpoint() == old(self).spec_metrics_endpoint(),
            final(self).spec_selector().spec_len() == old(self).spec_selector().spec_len(),
            forall|i: int| #[trigger]
                final(self).spec_selector().backend(i) == old(self).spec_selector().backend(i),
            final(ctx).failure_count == old(ctx).failure_count,
            final(ctx).selected_backend == Some(r),
            ({
                let sel = old(self).spec_selector();
                let len = sel.spec_len();
                if retry_allowed(old(ctx).failure_count as int, len) {
                    &&& final(ctx).backend_index == old(ctx).backend_index
                    &&& final(self).spec_selector().spec_cursor() == sel.spec_cursor()
                    &&& r@ == sel.backend(
                        retry_index(
                            old(ctx).backend_index as int % len,
                            old(ctx).failure_count as int,
                            len,
                        ),
                    )
                } else {
                    &&& final(ctx).backend_index == sel.spec_cursor()
                    &&& final(self).spec_selector().spec_cursor() == next_cursor(
                        sel.spec_cursor(),
                        len,
                    )
                    &&& r@ == sel.backend(sel.spec_cursor())
                }
            }),
    {
        let len = self.selector.len();
        let address = if 0 < ctx.failure_count && ctx.failure_count < len {
            let index = offset_index(ctx.backend_index % len, ctx.failure_count, len);
            let a = self.selector.by_index(index);
            proof {
                vstd::arithmetic::div_mod::lemma_small_mod(index as nat, len as nat);
            }
            a
        } else {
            let (index, a) = self.selector.next();
            ctx.backend_index = index;
            a
        };
        ctx.selected_backend = Some(address.clone());
        address
    }

    /// The value of the header naming the backend that served the response,
    /// once a backend has been chosen.
    pub fn response_filter(&self, ctx: &ProxyContext) -> (r: Option<String>)
        ensures
            match ctx.selected_backend {
                Some(b) => r matches Some(v) && v@ == seq!['b', 'a', 'c', 'k', 'e', 'n', 'd', '_']
                    + backend_label(b@),
                None => r is None,
            },
    {
        match &ctx.selected_backend {
            Some(b) => Some(backend_header_value(b.as_str())),
            None => None,
        }
    }

    /// A connection to the chosen backend could not be made.
    pub fn fail_to_connect(&self, ctx: &mut ProxyContext)
        ensures
            final(ctx).failure_count == if old(ctx).failure_count < usize::MAX {
                old(ctx).failure_count + 1
            } else {
                old(ctx).failure_count as int
            },
            final(ctx).backend_index == old(ctx).backend_index,
            final(ctx).selected_backend == old(ctx).selected_backend,
    {
        ctx.record_failure();
    }

    /// The attempt failed after the backend was reached.
    pub fn error_while_proxy(&self, ctx: &mut ProxyContext)
        ensures
            final(ctx).failure_count == if old(ctx).failure_count < usize::MAX {
                old(ctx).failure_count + 1
            } else {
                old(ctx).failure_count as int
            },
            final(ctx).backend_index == old(ctx).backend_index,
            final(ctx).selected_backend == old(ctx).selected_backend,
    {
        ctx.record_failure();
    }

    /// Decides, after a failed attempt, between another attempt on a
    /// different backend and giving up with 503.
    pub fn fail_to_proxy(&self, ctx: &ProxyContext) -> (r: ProxyFailure)
        ensures
            r.error_code == failure_code(
                ctx.failure_count as int,
                self.spec_selector().spec_len(),
            ),
            !r.can_reuse_downstream,
    {
        let len = self.selector.len();
        let error_code: u16 = if 0 < ctx.failure_count && ctx.failure_count < len {
            0
        } else {
            503
        };
        ProxyFailure { error_code, can_reuse_downstream: false }
    }
}

} // verus!
