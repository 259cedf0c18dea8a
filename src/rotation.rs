//! Round-robin rotation over a fixed, non-empty list of backends, with the
//! linear offset used to pick a different backend when a request is retried.

use vstd::arithmetic::div_mod::{
    lemma_add_mod_noop, lemma_add_mod_noop_right, lemma_fundamental_div_mod,
    lemma_fundamental_div_mod_converse, lemma_mod_bound, lemma_mod_self_0,
    lemma_mod_sub_multiples_vanish, lemma_small_mod,
};
use vstd::prelude::*;

verus! {

/// Where the rotation stands after one fresh pick from `cursor`.
pub open spec fn next_cursor(cursor: int, len: int) -> int {
    (cursor + 1) % len
}

/// A retried attempt stays eligible while at least one failure has been
/// seen and not every backend has failed yet.
pub open spec fn retry_allowed(failures: int, len: int) -> bool {
    0 < failures < len
}

/// The backend index for the attempt that follows `failures` failures of a
/// request whose first attempt went to `first`.
pub open spec fn retry_index(first: int, failures: int, len: int) -> int {
    (first + failures) % len
}

pub struct BackendSelector {
    backends: Vec<String>,
    cursor: usize,
}

impl BackendSelector {
    pub closed spec fn spec_len(&self) -> int {
        self.backends@.len() as int
    }

    /// The address of the backend at `i`.
    pub closed spec fn backend(&self, i: int) -> Seq<char> {
        self.backends@[i]@
    }

    /// The index the next fresh pick hands out.
    pub closed spec fn spec_cursor(&self) -> int {
        self.cursor as int
    }

    pub closed spec fn wf(&self) -> bool {
        0 < self.backends@.len() && self.cursor < self.backends@.len()
    }

    /// A selector over `backends` whose first fresh pick is index 0.
    pub fn new(backends: Vec<String>) -> (r: Self)
        requires
            backends@.len() > 0,
        ensures
            r.wf(),
            r.spec_cursor() == 0,
            r.spec_len() == backends@.len(),
            forall|i: int| 0 <= i < backends@.len() ==> #[trigger] r.backend(i) == backends@[i]@,
    {
        BackendSelector { backends, cursor: 0 }
    }

    pub fn len(&self) -> (r: usize)
        ensures
            r == self.spec_len(),
    {
        self.backends.len()
    }

    /// Takes the current rotation slot and advances the rotation by one:
    /// returns the index taken and the address of that backend.
    pub fn next(&mut self) -> (r: (usize, String))
        requires
            old(self).wf(),
        ensures
            final(self).wf(),
            final(self).spec_len() == old(self).spec_len(),
            forall|i: int| #[trigger] final(self).backend(i) == old(self).backend(i),
            r.0 == old(self).spec_cursor(),
            r.1@ == old(self).backend(r.0 as int),
            final(self).spec_cursor() == next_cursor(old(self).spec_cursor(), old(self).spec_len()),
    {
        let index = self.cursor;
        let address = self.backends[index].clone();
        self.cursor = if index == self.backends.len() - 1 {
            0
        } else {
            index + 1
        };
        proof {
            let len = self.backends@.len() as int;
            if index + 1 == len {
                lemma_mod_self_0(len);
            } else {
                lemma_small_mod((index + 1) as nat, len as nat);
            }
        }
        (index, address)
    }

    /// The address of the backend at `index` taken round the list; the
    /// rotation does not move.
    pub fn by_index(&self, index: usize) -> (r: String)
        requires
            self.wf(),
        ensures
            r@ == self.backend(index as int % self.spec_len()),
    {
        self.backends[index % self.backends.len()].clone()
    }
}

/// `(first + failures) % len`, computed without overflow.
pub fn offset_index(first: usize, failures: usize, len: usize) -> (r: usize)
    requires
        first < len,
        failures < len,
    ensures
        r == retry_index(first as int, failures as int, len as int),
        r < len,
{
    let room = len - first;
    if failures >= room {
        proof {
            lemma_add_mod_noop((first + failures - len) as int, len as int, len as int);
            lemma_mod_self_0(len as int);
            lemma_small_mod((first + failures - len) as nat, len as nat);
        }
        failures - room
    } else {
        proof {
            lemma_small_mod((first + failures) as nat, len as nat);
        }
        first + failures
    }
}

/// The rotation's position after `n` fresh picks from `start`.
pub open spec fn cursor_after(start: int, len: int, n: nat) -> int
    decreases n,
{
    if n == 0 {
        start
    } else {
        next_cursor(cursor_after(start, len, (n - 1) as nat), len)
    }
}

/// The indices handed out by `n` sequential fresh picks from `start`.
pub open spec fn picks(start: int, len: int, n: nat) -> Seq<int>
    decreases n,
{
    if n == 0 {
        Seq::empty()
    } else {
        picks(start, len, (n - 1) as nat).push(cursor_after(start, len, (n - 1) as nat))
    }
}

/// How often `b` occurs in `s`.
pub open spec fn occurrences(s: Seq<int>, b: int) -> nat
    decreases s.len(),
{
    if s.len() == 0 {
        0
    } else {
        occurrences(s.drop_last(), b) + if s.last() == b {
            1nat
        } else {
            0nat
        }
    }
}

proof fn lemma_mod_below_twice(x: int, len: int)
    requires
        0 < len,
        0 <= x < 2 * len,
    ensures
        x % len == if x < len {
            x
        } else {
            x - len
        },
{
    if x < len {
        lemma_small_mod(x as nat, len as nat);
    } else {
        lemma_fundamental_div_mod_converse(x, len, 1, x - len);
    }
}

proof fn lemma_cursor_after(start: int, len: int, n: nat)
    requires
        0 <= start < len,
    ensures
        cursor_after(start, len, n) == (start + n) % len,
    decreases n,
{
    if n == 0 {
        assert(start + n == start);
        lemma_small_mod(start as nat, len as nat);
    } else {
        lemma_cursor_after(start, len, (n - 1) as nat);
        lemma_add_mod_noop_right(1, start + n - 1, len);
        assert(1 + (start + n - 1) == start + n);
    }
}

/// Sequential fresh picks go round the list in order: the `k`-th of them
/// (counting from 0) hands out `(start + k) % len`.
pub proof fn lemma_rotation_in_order(start: int, len: int, n: nat)
    requires
        0 <= start < len,
    ensures
        picks(start, len, n).len() == n,
        forall|k: int| 0 <= k < n ==> #[trigger] picks(start, len, n)[k] == (start + k) % len,
    decreases n,
{
    if n > 0 {
        lemma_rotation_in_order(start, len, (n - 1) as nat);
        lemma_cursor_after(start, len, (n - 1) as nat);
    }
}

proof fn lemma_div_step(x: int, len: int)
    requires
        0 <= x,
        0 < len,
    ensures
        (x + 1) / len == x / len + if (x + 1) % len == 0 {
            1int
        } else {
            0int
        },
{
    let q = x / len;
    let r = x % len;
    lemma_fundamental_div_mod(x, len);
    lemma_mod_bound(x, len);
    assert(len * q == q * len) by (nonlinear_arith);
    if r + 1 < len {
        lemma_fundamental_div_mod_converse(x + 1, len, q, r + 1);
    } else {
        assert((q + 1) * len == q * len + len) by (nonlinear_arith);
        lemma_fundamental_div_mod_converse(x + 1, len, q + 1, 0);
    }
}

/// The exact count of `b` among `n` fresh picks from `start`, with `d` the
/// number of picks it takes to first reach `b`.
proof fn lemma_occurrences_exact(start: int, len: int, n: nat, b: int, d: int)
    requires
        0 <= start < len,
        0 <= b < len,
        d == if b >= start {
            b - start
        } else {
            b - start + len
        },
    ensures
        occurrences(picks(start, len, n), b) == (n + len - 1 - d) / len,
    decreases n,
{
    lemma_rotation_in_order(start, len, n);
    if n == 0 {
        lemma_small_mod((len - 1 - d) as nat, len as nat);
        lemma_fundamental_div_mod_converse(len - 1 - d, len, 0, len - 1 - d);
    } else {
        let m = (n - 1) as nat;
        lemma_occurrences_exact(start, len, m, b, d);
        lemma_cursor_after(start, len, m);
        assert(picks(start, len, n).drop_last() == picks(start, len, m));
        let x = m + len - 1 - d;
        lemma_div_step(x, len);
        // (start + m) % len == b exactly when len divides m + len - d.
        let y = m + len - d;
        assert(x + 1 == y);
        lemma_mod_bound(y, len);
        lemma_add_mod_noop(y, b, len);
        lemma_small_mod(b as nat, len as nat);
        lemma_mod_below_twice(y % len + b, len);
        if b >= start {
            assert(start + m == -len + (y + b));
            lemma_mod_sub_multiples_vanish(y + b, len);
        } else {
            assert(start + m == y + b);
        }
    }
}

/// Fresh picks are fair: among `n` sequential picks over `len` backends,
/// each backend is handed out `floor(n / len)` or `ceil(n / len)` times.
pub proof fn lemma_rotation_fair(start: int, len: int, n: nat, b: int)
    requires
        0 <= start < len,
        0 <= b < len,
    ensures
        (n as int) / len <= occurrences(picks(start, len, n), b) <= (n + len - 1) / len,
{
    let d = if b >= start {
        b - start
    } else {
        b - start + len
    };
    lemma_occurrences_exact(start, len, n, b, d);
    vstd::arithmetic::div_mod::lemma_div_is_ordered(n as int, n + len - 1 - d, len);
    vstd::arithmetic::div_mod::lemma_div_is_ordered(n + len - 1 - d, n + len - 1, len);
}

/// Retries never revisit a backend: for a request first sent to `first`,
/// the attempt after `k` failures (`0 < k < len`) goes to
/// `(first + k) % len`, which differs from `first` and from the backend of
/// every earlier retry.
pub proof fn lemma_retry_offsets_distinct(first: int, k: int, len: int)
    requires
        0 <= first < len,
        0 < k < len,
    ensures
        0 <= retry_index(first, k, len) < len,
        retry_index(first, k, len) != first,
        forall|j: int| 0 < j < k ==> #[trigger] retry_index(first, j, len) != retry_index(first, k, len),
{
    lemma_mod_below_twice(first + k, len);
    assert forall|j: int| 0 < j < k implies #[trigger] retry_index(first, j, len) != retry_index(
        first,
        k,
        len,
    ) by {
        lemma_mod_below_twice(first + j, len);
    }
}

} // verus!
