use vstd::prelude::*;
use crate::connection::{Connection, Health, BACKOFF_BASE_MS};
use crate::endpoint::{same_endpoint, Endpoint, EndpointView};

verus! {

/// Whether some slot of `s` stands for the endpoint `e`.
pub open spec fn contains_endpoint(s: Seq<Connection>, e: EndpointView) -> bool {
    exists|i: int| 0 <= i < s.len() && (#[trigger] s[i]).endpoint@ == e
}

/// The connection pool: one slot per configured endpoint, in
/// configuration order. Slots are appended on add and spliced out on
/// remove, never reordered, so a round-robin cursor stays meaningful
/// across snapshots; endpoints are unique, so the balancer always
/// sees one stable slot per address.
#[derive(Debug)]
pub struct Pool {
    pub conns: Vec<Connection>,
}

impl Pool {
    /// Every slot's backoff is well formed and no two slots stand
    /// for the same endpoint.
    pub open spec fn wf(&self) -> bool {
        &&& forall|i: int| 0 <= i < self.conns@.len() ==> (#[trigger] self.conns@[i]).wf()
        &&& forall|i: int, j: int|
            0 <= i < j < self.conns@.len() ==> (#[trigger] self.conns@[i]).endpoint@ != (
            #[trigger] self.conns@[j]).endpoint@
    }

    /// A pool with no slots.
    pub fn new() -> (r: Pool)
        ensures
            r.conns@.len() == 0,
            r.wf(),
    {
        Pool { conns: Vec::new() }
    }

    pub fn len(&self) -> (r: usize)
        ensures
            r == self.conns@.len(),
    {
        self.conns.len()
    }

    /// The slot standing for `e`, if any.
    pub fn find(&self, e: &Endpoint) -> (r: Option<usize>)
        ensures
            match r {
                Option::Some(i) => i < self.conns@.len() && self.conns@[i as int].endpoint@ == e@,
                Option::None => !contains_endpoint(self.conns@, e@),
            },
    {
        let n: usize = self.conns.len();
        let mut i: usize = 0;
        while i < n
            invariant
                i <= n,
                n == self.conns@.len(),
                forall|k: int| 0 <= k < i ==> (#[trigger] self.conns@[k]).endpoint@ != e@,
            decreases n - i,
        {
            if same_endpoint(&self.conns[i].endpoint, e) {
                return Some(i);
            }
            i = i + 1;
        }
        None
    }

    /// Adds a slot for `e` unless one already stands: a duplicate
    /// address collapses into the existing slot. A new slot starts
    /// connecting, appended after all others.
    pub fn add_endpoint(&mut self, e: Endpoint) -> (added: bool)
        requires
            old(self).wf(),
        ensures
            final(self).wf(),
            added == !contains_endpoint(old(self).conns@, e@),
            !added ==> *final(self) == *old(self),
            added ==> final(self).conns@.len() == old(self).conns@.len() + 1 && final(self).conns@.subrange(
                0,
                old(self).conns@.len() as int,
            ) == old(self).conns@ && final(self).conns@.last().endpoint@ == e@
                && final(self).conns@.last().health == Health::Connecting && final(self).conns@.last().backoff_ms
                == BACKOFF_BASE_MS,
    {
        match self.find(&e) {
            Option::Some(_) => false,
            Option::None => {
                let c = Connection::new(e);
                self.conns.push(c);
                proof {
                    assert(self.conns@.subrange(0, old(self).conns@.len() as int) =~= old(
                        self,
                    ).conns@);
                    assert forall|i: int, j: int| 0 <= i < j < self.conns@.len() implies (
                    #[trigger] self.conns@[i]).endpoint@ != (#[trigger] self.conns@[j]).endpoint@ by {
                        if j == self.conns@.len() - 1 {
                            assert(self.conns@[i] == old(self).conns@[i]);
                        }
                    }
                }
                true
            },
        }
    }

    /// Removes the slot standing for `e`, if any, closing it; the
    /// order of the remaining slots is preserved.
    pub fn remove_endpoint(&mut self, e: &Endpoint) -> (removed: bool)
        requires
            old(self).wf(),
        ensures
            final(self).wf(),
            removed == contains_endpoint(old(self).conns@, e@),
            !removed ==> *final(self) == *old(self),
            removed ==> exists|i: int|
                0 <= i < old(self).conns@.len() && (#[trigger] old(self).conns@[i]).endpoint@ == e@
                    && final(self).conns@ == old(self).conns@.remove(i),
    {
        match self.find(e) {
            Option::Some(i) => {
                self.conns.remove(i);
                proof {
                    let oi = i as int;
                    assert(0 <= oi < old(self).conns@.len() && old(self).conns@[oi].endpoint@ == e@
                        && self.conns@ == old(self).conns@.remove(oi));
                    assert forall|p: int| 0 <= p < self.conns@.len() implies (
                    #[trigger] self.conns@[p]).wf() by {
                        if p < oi {
                            assert(self.conns@[p] == old(self).conns@[p]);
                        } else {
                            assert(self.conns@[p] == old(self).conns@[p + 1]);
                        }
                    }
                    assert forall|p: int, q: int| 0 <= p < q < self.conns@.len() implies (
                    #[trigger] self.conns@[p]).endpoint@ != (#[trigger] self.conns@[q]).endpoint@ by {
                        let p0 = if p < oi { p } else { p + 1 };
                        let q0 = if q < oi { q } else { q + 1 };
                        assert(self.conns@[p] == old(self).conns@[p0]);
                        assert(self.conns@[q] == old(self).conns@[q0]);
                    }
                }
                true
            },
            Option::None => false,
        }
    }

    /// A consistent ordered read of every slot's health, for the
    /// balancer.
    pub fn snapshot(&self) -> (r: Vec<Health>)
        ensures
            r@.len() == self.conns@.len(),
            forall|i: int| 0 <= i < r@.len() ==> r@[i] == (#[trigger] self.conns@[i]).health,
    {
        let n: usize = self.conns.len();
        let mut out: Vec<Health> = Vec::new();
        let mut i: usize = 0;
        while i < n
            invariant
                i <= n,
                n == self.conns@.len(),
                out@.len() == i,
                forall|k: int| 0 <= k < i ==> out@[k] == (#[trigger] self.conns@[k]).health,
            decreases n - i,
        {
            out.push(self.conns[i].health);
            i = i + 1;
        }
        out
    }

    /// A consistent ordered read of every slot: its endpoint and its
    /// health, in configuration order.
    pub fn snapshot_with_endpoints(&self) -> (r: Vec<(Endpoint, Health)>)
        ensures
            r@.len() == self.conns@.len(),
            forall|i: int|
                0 <= i < r@.len() ==> (#[trigger] r@[i]).0@ == self.conns@[i].endpoint@ && r@[i].1
                    == self.conns@[i].health,
    {
        let n: usize = self.conns.len();
        let mut out: Vec<(Endpoint, Health)> = Vec::new();
        let mut i: usize = 0;
        while i < n
            invariant
                i <= n,
                n == self.conns@.len(),
                out@.len() == i,
                forall|k: int|
                    0 <= k < i ==> (#[trigger] out@[k]).0@ == self.conns@[k].endpoint@ && out@[k].1
                        == self.conns@[k].health,
            decreases n - i,
        {
            let e = self.conns[i].endpoint.clone();
            out.push((e, self.conns[i].health));
            i = i + 1;
        }
        out
    }

    /// Closes every slot. Already-closed slots stay closed, so a
    /// second pass changes nothing.
    pub fn close_all(&mut self)
        requires
            old(self).wf(),
        ensures
            final(self).wf(),
            final(self).conns@.len() == old(self).conns@.len(),
            forall|i: int|
                0 <= i < final(self).conns@.len() ==> (#[trigger] final(self).conns@[i]).health == Health::Closed
                    && final(self).conns@[i].endpoint == old(self).conns@[i].endpoint
                    && final(self).conns@[i].backoff_ms == old(self).conns@[i].backoff_ms,
    {
        let n: usize = self.conns.len();
        let mut i: usize = 0;
        while i < n
            invariant
                i <= n,
                n == self.conns@.len(),
                old(self).wf(),
                self.conns@.len() == old(self).conns@.len(),
                forall|k: int|
                    0 <= k < i ==> (#[trigger] self.conns@[k]).health == Health::Closed
                        && self.conns@[k].endpoint == old(self).conns@[k].endpoint
                        && self.conns@[k].backoff_ms == old(self).conns@[k].backoff_ms
                        && self.conns@[k].wf(),
                forall|k: int| i <= k < n ==> (#[trigger] self.conns@[k]) == old(self).conns@[k],
            decreases n - i,
        {
            let ghost prev = self.conns@;
            let mut c = self.conns.remove(i);
            c.close();
            self.conns.insert(i, c);
            proof {
                assert(self.conns@ =~= prev.update(i as int, c));
            }
            i = i + 1;
        }
    }

    /// A dial on slot `i` came back well; the slot's own transition
    /// applies (discarded if the slot was closed meanwhile).
    pub fn report_dial_success(&mut self, i: usize)
        requires
            old(self).wf(),
            i < old(self).conns@.len(),
        ensures
            final(self).wf(),
            final(self).conns@.len() == old(self).conns@.len(),
            forall|k: int|
                0 <= k < final(self).conns@.len() && k != i ==> (#[trigger] final(self).conns@[k]) == old(
                self).conns@[k],
            final(self).conns@[i as int].endpoint@ == old(self).conns@[i as int].endpoint@,
            old(self).conns@[i as int].health is Closed ==> final(self).conns@[i as int] == old(
            self).conns@[i as int],
            !(old(self).conns@[i as int].health is Closed) ==> final(self).conns@[i as int].health
                == Health::Ready && final(self).conns@[i as int].backoff_ms == BACKOFF_BASE_MS,
    {
        let ghost prev = self.conns@;
        let mut c = self.conns.remove(i);
        c.on_dial_success();
        self.conns.insert(i, c);
        proof {
            assert(self.conns@ =~= prev.update(i as int, c));
            lemma_update_keeps_unique(prev, i as int, c);
        }
    }

    /// A dial on slot `i` failed for `reason`; the slot's own
    /// transition applies.
    pub fn report_dial_failure(&mut self, i: usize, reason: crate::errors::ConnectError)
        requires
            old(self).wf(),
            i < old(self).conns@.len(),
        ensures
            final(self).wf(),
            final(self).conns@.len() == old(self).conns@.len(),
            forall|k: int|
                0 <= k < final(self).conns@.len() && k != i ==> (#[trigger] final(self).conns@[k]) == old(
                self).conns@[k],
            final(self).conns@[i as int].endpoint@ == old(self).conns@[i as int].endpoint@,
            old(self).conns@[i as int].health is Closed ==> final(self).conns@[i as int] == old(
            self).conns@[i as int],
            !(old(self).conns@[i as int].health is Closed) ==> final(self).conns@[i as int].health
                == Health::Failed(reason) && final(self).conns@[i as int].backoff_ms
                == crate::connection::next_backoff_spec(old(self).conns@[i as int].backoff_ms),
    {
        let ghost prev = self.conns@;
        let mut c = self.conns.remove(i);
        c.on_dial_failure(reason);
        self.conns.insert(i, c);
        proof {
            assert(self.conns@ =~= prev.update(i as int, c));
            lemma_update_keeps_unique(prev, i as int, c);
        }
    }

    /// The transport under slot `i` failed during a call; the slot is
    /// marked failed and its redial starts from the base delay.
    pub fn report_send_failure(&mut self, i: usize)
        requires
            old(self).wf(),
            i < old(self).conns@.len(),
        ensures
            final(self).wf(),
            final(self).conns@.len() == old(self).conns@.len(),
            forall|k: int|
                0 <= k < final(self).conns@.len() && k != i ==> (#[trigger] final(self).conns@[k]) == old(
                self).conns@[k],
            final(self).conns@[i as int].endpoint@ == old(self).conns@[i as int].endpoint@,
            final(self).conns@[i as int].health == Health::Failed(crate::errors::ConnectError::Io),
            final(self).conns@[i as int].backoff_ms == BACKOFF_BASE_MS,
    {
        let ghost prev = self.conns@;
        let mut c = self.conns.remove(i);
        c.on_send_transport_failure();
        self.conns.insert(i, c);
        proof {
            assert(self.conns@ =~= prev.update(i as int, c));
            lemma_update_keeps_unique(prev, i as int, c);
        }
    }
}

/// Updating one slot in place, with its endpoint kept, preserves the
/// uniqueness of endpoints across the pool.
proof fn lemma_update_keeps_unique(s: Seq<Connection>, i: int, c: Connection)
    requires
        0 <= i < s.len(),
        c.endpoint@ == s[i].endpoint@,
        forall|p: int, q: int|
            0 <= p < q < s.len() ==> (#[trigger] s[p]).endpoint@ != (#[trigger] s[q]).endpoint@,
    ensures
        forall|p: int, q: int|
            0 <= p < q < s.update(i, c).len() ==> (#[trigger] s.update(i, c)[p]).endpoint@ != (
            #[trigger] s.update(i, c)[q]).endpoint@,
{
    assert forall|p: int, q: int| 0 <= p < q < s.update(i, c).len() implies (#[trigger] s.update(
        i,
        c,
    )[p]).endpoint@ != (#[trigger] s.update(i, c)[q]).endpoint@ by {
        assert(s.update(i, c)[p].endpoint@ == s[p].endpoint@);
        assert(s.update(i, c)[q].endpoint@ == s[q].endpoint@);
    }
}

} // verus!
