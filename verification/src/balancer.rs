use vstd::prelude::*;
use vstd::arithmetic::div_mod::{
    lemma_add_mod_noop, lemma_mod_bound, lemma_mod_self_0, lemma_mod_twice, lemma_small_mod,
};
use crate::connection::Health;

verus! {

/// The slot found by scanning offsets `j`, `j + 1`, ... up to a full
/// turn past the cursor `c`, wrapping around `h.len()`: the first
/// ready slot, or none after a whole turn.
pub open spec fn scan_from(h: Seq<Health>, c: int, j: int) -> Option<int>
    decreases h.len() + 1 - j,
{
    if h.len() == 0 || j < 1 || j > h.len() {
        None
    } else if h[(c + j) % (h.len() as int)] is Ready {
        Some((c + j) % (h.len() as int))
    } else {
        scan_from(h, c, j + 1)
    }
}

/// The slot a round-robin pick chooses given the healths `h` and the
/// last-picked cursor `c`: the first ready slot strictly after the
/// cursor, wrapping, each slot inspected at most once.
pub open spec fn pick_spec(h: Seq<Health>, c: int) -> Option<int> {
    scan_from(h, c, 1)
}

/// Every slot is ready.
pub open spec fn all_ready(h: Seq<Health>) -> bool {
    forall|i: int| 0 <= i < h.len() ==> (#[trigger] h[i]) is Ready
}

/// Some slot is ready.
pub open spec fn some_ready(h: Seq<Health>) -> bool {
    exists|i: int| 0 <= i < h.len() && (#[trigger] h[i]) is Ready
}

/// Round-robin selection state: the index picked last, kept across
/// calls so that no slot is served twice before the others are each
/// offered a turn.
#[derive(Debug)]
pub struct Balancer {
    pub cursor: usize,
}

impl Balancer {
    /// A fresh cursor: the first pick starts at slot 0 on a nonempty
    /// pool, as if slot `len - 1` had just been served.
    pub fn new() -> (r: Balancer)
        ensures
            r.cursor == 0,
    {
        Balancer { cursor: 0 }
    }

    /// Picks the next slot: the first ready one strictly after the
    /// cursor in configuration order, wrapping, and moves the cursor
    /// there. With no ready slot (an empty pool included) nothing is
    /// picked and the cursor stays.
    pub fn pick(&mut self, h: &Vec<Health>) -> (r: Option<usize>)
        ensures
            match r {
                Option::Some(i) => pick_spec(h@, old(self).cursor as int) == Option::Some(i as int)
                    && i < h@.len() && h@[i as int] is Ready && final(self).cursor == i,
                Option::None => pick_spec(h@, old(self).cursor as int) is None && *final(self)
                    == *old(self),
            },
            (r is Some) == some_ready(h@),
    {
        let n: usize = h.len();
        if n == 0 {
            proof {
                lemma_scan_none_not_ready(h@, old(self).cursor as int, 1);
            }
            return None;
        }
        let ghost c0 = self.cursor as int;
        let mut idx: usize = self.cursor % n;
        proof {
            lemma_mod_bound(c0, n as int);
            lemma_small_mod(0, n as nat);
            lemma_add_mod_noop(c0, 0, n as int);
            lemma_mod_twice(c0, n as int);
            assert((c0 + 0) % (n as int) == idx as int);
        }
        let mut t: usize = 0;
        while t < n
            invariant
                0 < n == h@.len(),
                t <= n,
                idx < n,
                idx as int == (c0 + t) % (n as int),
                c0 == old(self).cursor as int,
                *self == *old(self),
                pick_spec(h@, c0) == scan_from(h@, c0, t + 1),
            decreases n - t,
        {
            let next: usize = if idx + 1 == n {
                0
            } else {
                idx + 1
            };
            proof {
                lemma_step_mod(c0, t as int, n as int);
                assert(next as int == (c0 + t + 1) % (n as int));
            }
            if matches!(h[next], Health::Ready) {
                self.cursor = next;
                proof {
                    assert(scan_from(h@, c0, t + 1) == Some(next as int));
                    assert(some_ready(h@));
                }
                return Some(next);
            }
            proof {
                assert(scan_from(h@, c0, t + 1) == scan_from(h@, c0, t + 2));
            }
            idx = next;
            t = t + 1;
        }
        proof {
            lemma_scan_none_not_ready(h@, c0, 1);
        }
        None
    }
}

/// One wrapping step: the successor of `(c + t) % n` modulo `n` is
/// `(c + t + 1) % n`.
proof fn lemma_step_mod(c: int, t: int, n: int)
    requires
        n > 0,
        c >= 0,
        t >= 0,
    ensures
        (c + t + 1) % n == if (c + t) % n + 1 == n {
            0int
        } else {
            (c + t) % n + 1
        },
{
    lemma_mod_bound(c + t, n);
    lemma_add_mod_noop(c + t, 1, n);
    if n == 1 {
        lemma_mod_self_0(n);
        lemma_small_mod(0, n as nat);
    } else {
        lemma_small_mod(1, n as nat);
        if (c + t) % n + 1 == n {
            lemma_mod_self_0(n);
        } else {
            lemma_small_mod(((c + t) % n + 1) as nat, n as nat);
        }
    }
    lemma_mod_twice(c + t, n);
}

/// A scan that comes back empty inspected every slot and found none
/// ready; conversely a ready slot somewhere means the scan finds one.
proof fn lemma_scan_none_not_ready(h: Seq<Health>, c: int, j: int)
    requires
        c >= 0,
        1 <= j,
        scan_from(h, c, j) is None,
        forall|k: int| 1 <= k < j ==> !((#[trigger] h[(c + k) % (h.len() as int)]) is Ready) || h.len() == 0,
    ensures
        !some_ready(h),
    decreases h.len() + 1 - j,
{
    if h.len() == 0 {
        assert(!some_ready(h));
    } else if j > h.len() {
        assert forall|i: int| 0 <= i < h.len() implies !((#[trigger] h[i]) is Ready) by {
            let n = h.len() as int;
            lemma_mod_bound(c, n);
            let base = c % n;
            let k = if i > base {
                i - base
            } else {
                i - base + n
            };
            assert(1 <= k <= n);
            lemma_add_mod_noop(c, k, n);
            lemma_mod_twice(c, n);
            lemma_small_mod(i as nat, n as nat);
            if k == n {
                lemma_mod_self_0(n);
                assert(i == base);
                assert((c + k) % n == (base + 0) % n);
            } else {
                lemma_small_mod(k as nat, n as nat);
                assert((c + k) % n == (base + k) % n);
                if i > base {
                    assert(base + k == i);
                } else {
                    assert(base + k == i + n);
                    vstd::arithmetic::div_mod::lemma_mod_add_multiples_vanish(i, n);
                }
            }
            assert((c + k) % n == i);
            assert(!(h[(c + k) % n] is Ready));
        }
    } else {
        assert(!(h[(c + j) % (h.len() as int)] is Ready));
        lemma_scan_none_not_ready(h, c, j + 1);
    }
}

/// A scan only ever lands on a ready slot, in range.
proof fn lemma_scan_result_ready(h: Seq<Health>, c: int, j: int)
    requires
        c >= 0,
        1 <= j,
    ensures
        match scan_from(h, c, j) {
            Option::Some(i) => 0 <= i < h.len() && h[i] is Ready,
            Option::None => true,
        },
    decreases h.len() + 1 - j,
{
    if h.len() == 0 || j > h.len() {
    } else if h[(c + j) % (h.len() as int)] is Ready {
        lemma_mod_bound(c + j, h.len() as int);
    } else {
        lemma_scan_result_ready(h, c, j + 1);
    }
}

/// Service is owed exactly while some slot is ready: a pick finds a
/// ready slot whenever one exists — in particular as soon as one
/// recovering endpoint's redial succeeds — and whatever it finds is
/// ready; with no ready slot it finds nothing.
pub proof fn lemma_pick_iff_some_ready(h: Seq<Health>, c: int)
    requires
        c >= 0,
    ensures
        (pick_spec(h, c) is Some) == some_ready(h),
        match pick_spec(h, c) {
            Option::Some(i) => 0 <= i < h.len() && h[i] is Ready,
            Option::None => !some_ready(h),
        },
{
    lemma_scan_result_ready(h, c, 1);
    if pick_spec(h, c) is None {
        lemma_scan_none_not_ready(h, c, 1);
    }
}

/// With every slot ready, the pick lands exactly one past the cursor,
/// wrapping: the cursor walks the slots in configuration order.
pub proof fn lemma_pick_all_ready(h: Seq<Health>, c: int)
    requires
        h.len() > 0,
        c >= 0,
        all_ready(h),
    ensures
        pick_spec(h, c) == Some((c + 1) % (h.len() as int)),
{
    lemma_mod_bound(c + 1, h.len() as int);
}

/// The slot served by the `k`-th consecutive call (counted from 0)
/// when every slot stays ready and the cursor starts at `c`.
pub open spec fn rr_nth(c: int, n: int, k: nat) -> int
    decreases k,
{
    if k == 0 {
        (c + 1) % n
    } else {
        (rr_nth(c, n, (k - 1) as nat) + 1) % n
    }
}

/// Closed form of the round-robin walk: the `k`-th consecutive pick
/// is `(c + 1 + k) % n`.
pub proof fn lemma_rr_nth_closed(c: int, n: int, k: nat)
    requires
        n > 0,
        c >= 0,
    ensures
        rr_nth(c, n, k) == (c + 1 + k) % n,
    decreases k,
{
    if k > 0 {
        lemma_rr_nth_closed(c, n, (k - 1) as nat);
        assert(rr_nth(c, n, k) == ((c + k) % n + 1) % n);
        lemma_add_mod_noop(c + k, 1, n);
        lemma_mod_twice(c + k, n);
        if n == 1 {
            lemma_mod_bound(c + k, n);
            lemma_mod_bound((c + k) % n + 1, n);
            lemma_mod_bound(c + 1 + k, n);
        } else {
            lemma_small_mod(1, n as nat);
            assert(((c + k) % n + 1int % n) % n == (c + k + 1) % n);
        }
    } else {
        lemma_mod_bound(c + 1, n);
    }
}

/// Fairness of the round-robin walk: within one full turn over a pool
/// whose slots all stay ready, no slot is served twice before every
/// slot has been served once — any two of the first `n` consecutive
/// picks land on different slots.
pub proof fn lemma_round_robin_fair(c: int, n: int, k1: nat, k2: nat)
    requires
        n > 0,
        c >= 0,
        k1 < k2,
        k2 < n,
    ensures
        rr_nth(c, n, k1) != rr_nth(c, n, k2),
{
    lemma_rr_nth_closed(c, n, k1);
    lemma_rr_nth_closed(c, n, k2);
    let a = c + 1 + k1;
    let d = k2 - k1;
    lemma_mod_bound(a, n);
    lemma_add_mod_noop(a, d, n);
    lemma_mod_twice(a, n);
    lemma_small_mod(d as nat, n as nat);
    let m = a % n;
    assert((a + d) % n == (m + d) % n) by {
        assert((a % n + d % n) % n == (a + d) % n);
    }
    if m + d < n {
        lemma_small_mod((m + d) as nat, n as nat);
    } else {
        vstd::arithmetic::div_mod::lemma_mod_sub_multiples_vanish(m + d, n);
        assert((m + d) % n == (m + d - n) % n);
        lemma_small_mod((m + d - n) as nat, n as nat);
    }
}

} // verus!
