//! Sliding-window admission control keyed by client identity.

use vstd::hash_map::StringHashMap;
use vstd::prelude::*;

verus! {

/// A timestamp `t` is still inside the window at `now` when fewer than
/// `window_seconds` seconds have passed since it; one exactly
/// `window_seconds` old has expired.
pub open spec fn is_live(t: u64, now: u64, window_seconds: u64) -> bool {
    now < t + window_seconds
}

/// The timestamps of `w` that are live at `now`, in their original order.
pub open spec fn prune(w: Seq<u64>, now: u64, window_seconds: u64) -> Seq<u64>
    decreases w.len(),
{
    if w.len() == 0 {
        w
    } else {
        let rest = prune(w.drop_last(), now, window_seconds);
        if is_live(w.last(), now, window_seconds) {
            rest.push(w.last())
        } else {
            rest
        }
    }
}

/// One admission decision on a single key's window: the window after the
/// call, and whether the request is admitted.
pub open spec fn admit_window(w: Seq<u64>, now: u64, max_requests: u64, window_seconds: u64) -> (
    Seq<u64>,
    bool,
) {
    let live = prune(w, now, window_seconds);
    if live.len() >= max_requests {
        (live, false)
    } else {
        (live.push(now), true)
    }
}

pub struct RateLimiter {
    requests: StringHashMap<Vec<u64>>,
    max_requests: u64,
    window_seconds: u64,
}

impl RateLimiter {
    /// The admission timestamps recorded for `key`; empty for a key never seen.
    pub closed spec fn window_of(&self, key: Seq<char>) -> Seq<u64> {
        if self.requests@.contains_key(key) {
            self.requests@[key]@
        } else {
            Seq::empty()
        }
    }

    pub closed spec fn spec_max_requests(&self) -> u64 {
        self.max_requests
    }

    pub closed spec fn spec_window_seconds(&self) -> u64 {
        self.window_seconds
    }

    pub fn new(max_requests: u64, window_seconds: u64) -> (r: Self)
        ensures
            r.spec_max_requests() == max_requests,
            r.spec_window_seconds() == window_seconds,
            forall|k: Seq<char>| #[trigger] r.window_of(k) == Seq::<u64>::empty(),
    {
        RateLimiter { requests: StringHashMap::new(), max_requests, window_seconds }
    }

    pub fn max_requests(&self) -> (r: u64)
        ensures
            r == self.spec_max_requests(),
    {
        self.max_requests
    }

    pub fn window_seconds(&self) -> (r: u64)
        ensures
            r == self.spec_window_seconds(),
    {
        self.window_seconds
    }

    /// Decides whether a request from `client` at time `now` (seconds since
    /// the epoch) is admitted. Expired timestamps of that client are dropped
    /// first; the request is admitted, and `now` recorded, only when fewer
    /// than `max_requests` live timestamps remain. Other clients are untouched.
    pub fn check_rate_limit(&mut self, client: &str, now: u64) -> (admitted: bool)
        ensures
            final(self).spec_max_requests() == old(self).spec_max_requests(),
            final(self).spec_window_seconds() == old(self).spec_window_seconds(),
            (final(self).window_of(client@), admitted) == admit_window(
                old(self).window_of(client@),
                now,
                old(self).spec_max_requests(),
                old(self).spec_window_seconds(),
            ),
            forall|k: Seq<char>|
                k != client@ ==> #[trigger] final(self).window_of(k) == old(self).window_of(k),
    {
        let ghost w = self.window_of(client@);
        let mut live: Vec<u64> = Vec::new();
        match self.requests.get(client) {
            Some(stamps) => {
                let mut i: usize = 0;
                while i < stamps.len()
                    invariant
                        i <= stamps@.len(),
                        stamps@ == w,
                        live@ == prune(w.subrange(0, i as int), now, self.window_seconds),
                    decreases stamps@.len() - i,
                {
                    let t = stamps[i];
                    assert(w.subrange(0, i + 1).drop_last() =~= w.subrange(0, i as int));
                    if t > now || now - t < self.window_seconds {
                        live.push(t);
                    }
                    i = i + 1;
                }
                assert(w.subrange(0, w.len() as int) =~= w);
            },
            None => {},
        }
        let admitted = if (live.len() as u64) >= self.max_requests {
            false
        } else {
            live.push(now);
            true
        };
        self.requests.insert(client.to_owned(), live);
        admitted
    }
}

/// Replays admission calls made at `times` on one key, starting from an
/// empty window: the window left behind, and the decision of each call.
pub open spec fn replay(times: Seq<u64>, max_requests: u64, window_seconds: u64) -> (
    Seq<u64>,
    Seq<bool>,
)
    decreases times.len(),
{
    if times.len() == 0 {
        (Seq::empty(), Seq::empty())
    } else {
        let (w, rs) = replay(times.drop_last(), max_requests, window_seconds);
        let (w2, r) = admit_window(w, times.last(), max_requests, window_seconds);
        (w2, rs.push(r))
    }
}

/// How many of the decisions in `rs` admitted.
pub open spec fn count_admitted(rs: Seq<bool>) -> nat
    decreases rs.len(),
{
    if rs.len() == 0 {
        0
    } else {
        count_admitted(rs.drop_last()) + if rs.last() {
            1nat
        } else {
            0nat
        }
    }
}

pub open spec fn non_decreasing(times: Seq<u64>) -> bool {
    forall|a: int, b: int| 0 <= a <= b < times.len() ==> times[a] <= times[b]
}

/// How many timestamps of `w` are at or after `x`.
spec fn count_at_or_after(w: Seq<u64>, x: u64) -> nat
    decreases w.len(),
{
    if w.len() == 0 {
        0
    } else {
        count_at_or_after(w.drop_last(), x) + if w.last() >= x {
            1nat
        } else {
            0nat
        }
    }
}

proof fn lemma_count_at_or_after_le_len(w: Seq<u64>, x: u64)
    ensures
        count_at_or_after(w, x) <= w.len(),
    decreases w.len(),
{
    if w.len() > 0 {
        lemma_count_at_or_after_le_len(w.drop_last(), x);
    }
}

proof fn lemma_prune_len(w: Seq<u64>, now: u64, window_seconds: u64)
    ensures
        prune(w, now, window_seconds).len() <= w.len(),
    decreases w.len(),
{
    if w.len() > 0 {
        lemma_prune_len(w.drop_last(), now, window_seconds);
    }
}

/// Pruning at `now` keeps every timestamp at or after `x` when `x` itself is
/// still live at `now`.
proof fn lemma_prune_keeps_recent(w: Seq<u64>, now: u64, window_seconds: u64, x: u64)
    requires
        is_live(x, now, window_seconds),
    ensures
        count_at_or_after(prune(w, now, window_seconds), x) == count_at_or_after(w, x),
    decreases w.len(),
{
    if w.len() > 0 {
        lemma_prune_keeps_recent(w.drop_last(), now, window_seconds, x);
        let rest = prune(w.drop_last(), now, window_seconds);
        if is_live(w.last(), now, window_seconds) {
            assert(rest.push(w.last()).drop_last() =~= rest);
        }
    }
}

proof fn lemma_replay_len(times: Seq<u64>, max_requests: u64, window_seconds: u64)
    ensures
        replay(times, max_requests, window_seconds).1.len() == times.len(),
    decreases times.len(),
{
    if times.len() > 0 {
        lemma_replay_len(times.drop_last(), max_requests, window_seconds);
    }
}

proof fn lemma_replay_prefix(times: Seq<u64>, max_requests: u64, window_seconds: u64, m: int)
    requires
        0 <= m <= times.len(),
    ensures
        replay(times.subrange(0, m), max_requests, window_seconds).1 == replay(
            times,
            max_requests,
            window_seconds,
        ).1.subrange(0, m),
    decreases times.len(),
{
    lemma_replay_len(times, max_requests, window_seconds);
    if m == times.len() {
        assert(times.subrange(0, m) =~= times);
        assert(replay(times, max_requests, window_seconds).1.subrange(0, m) =~= replay(
            times,
            max_requests,
            window_seconds,
        ).1);
    } else {
        let pre = times.drop_last();
        lemma_replay_prefix(pre, max_requests, window_seconds, m);
        lemma_replay_len(pre, max_requests, window_seconds);
        assert(pre.subrange(0, m) =~= times.subrange(0, m));
        let rs0 = replay(pre, max_requests, window_seconds).1;
        let rs = replay(times, max_requests, window_seconds).1;
        assert(rs.subrange(0, m) =~= rs0.subrange(0, m));
    }
}

/// What the replayed window holds: the window never exceeds the limit, and
/// every admission at or after call `i`, while call `i` is still live, is
/// still counted in the window.
proof fn lemma_replay_window(times: Seq<u64>, max_requests: u64, window_seconds: u64)
    requires
        non_decreasing(times),
    ensures
        replay(times, max_requests, window_seconds).0.len() <= max_requests,
        forall|i: int|
            0 <= i < times.len() && is_live(times[i], times.last(), window_seconds) ==> count_admitted(
                #[trigger] replay(times, max_requests, window_seconds).1.subrange(i, times.len() as int),
            ) <= count_at_or_after(replay(times, max_requests, window_seconds).0, times[i]),
    decreases times.len(),
{
    if times.len() > 0 {
        let n = times.len() as int;
        let pre = times.drop_last();
        assert(non_decreasing(pre));
        lemma_replay_window(pre, max_requests, window_seconds);
        lemma_replay_len(pre, max_requests, window_seconds);
        let (w0, rs0) = replay(pre, max_requests, window_seconds);
        let t = times.last();
        let live = prune(w0, t, window_seconds);
        lemma_prune_len(w0, t, window_seconds);
        let (w, rs) = replay(times, max_requests, window_seconds);
        let r = admit_window(w0, t, max_requests, window_seconds).1;
        assert forall|i: int|
            0 <= i < n && is_live(times[i], t, window_seconds) implies count_admitted(
            #[trigger] replay(times, max_requests, window_seconds).1.subrange(i, n),
        ) <= count_at_or_after(w, times[i]) by {
            let x = times[i];
            assert(rs.subrange(i, n).drop_last() =~= rs0.subrange(i, n - 1));
            assert(rs.subrange(i, n).last() == r);
            if r {
                assert(w.drop_last() =~= live);
            }
            assert(x <= t);
            if i < n - 1 {
                assert(pre[i] == x);
                assert(times[n - 2] <= t);
                assert(is_live(pre[i], pre.last(), window_seconds));
                assert(count_admitted(rs0.subrange(i, n - 1)) <= count_at_or_after(w0, x));
                lemma_prune_keeps_recent(w0, t, window_seconds, x);
                assert(count_at_or_after(live, x) == count_at_or_after(w0, x));
            } else {
                assert(rs0.subrange(i, n - 1) =~= Seq::<bool>::empty());
            }
        }
    }
}

/// Within any stretch of calls on one key at non-decreasing times that spans
/// less than `window_seconds` seconds (from call `i` through call `j`), at
/// most `max_requests` calls are admitted.
pub proof fn lemma_admissions_bounded_in_window(
    times: Seq<u64>,
    max_requests: u64,
    window_seconds: u64,
    i: int,
    j: int,
)
    requires
        non_decreasing(times),
        0 <= i <= j < times.len(),
        times[j] < times[i] + window_seconds,
    ensures
        count_admitted(replay(times, max_requests, window_seconds).1.subrange(i, j + 1))
            <= max_requests,
{
    let pre = times.subrange(0, j + 1);
    assert(non_decreasing(pre));
    lemma_replay_window(pre, max_requests, window_seconds);
    lemma_replay_prefix(times, max_requests, window_seconds, j + 1);
    lemma_replay_len(times, max_requests, window_seconds);
    lemma_replay_len(pre, max_requests, window_seconds);
    let (w, rs) = replay(pre, max_requests, window_seconds);
    assert(pre[i] == times[i] && pre.last() == times[j]);
    lemma_count_at_or_after_le_len(w, times[i]);
    assert(rs.subrange(i, j + 1) =~= replay(times, max_requests, window_seconds).1.subrange(
        i,
        j + 1,
    ));
}

proof fn lemma_prune_expired(w: Seq<u64>, now: u64, window_seconds: u64)
    requires
        forall|k: int| 0 <= k < w.len() ==> w[k] + window_seconds <= now,
    ensures
        prune(w, now, window_seconds) =~= Seq::<u64>::empty(),
    decreases w.len(),
{
    if w.len() > 0 {
        lemma_prune_expired(w.drop_last(), now, window_seconds);
    }
}

/// A key whose every recorded admission is at least `window_seconds` old
/// is decided exactly as a key never seen before.
pub proof fn lemma_quiet_key_is_fresh(w: Seq<u64>, now: u64, max_requests: u64, window_seconds: u64)
    requires
        forall|k: int| 0 <= k < w.len() ==> w[k] + window_seconds <= now,
    ensures
        admit_window(w, now, max_requests, window_seconds) == admit_window(
            Seq::empty(),
            now,
            max_requests,
            window_seconds,
        ),
{
    lemma_prune_expired(w, now, window_seconds);
    assert(prune(Seq::<u64>::empty(), now, window_seconds) =~= Seq::<u64>::empty());
}

} // verus!
