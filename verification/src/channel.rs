use vstd::prelude::*;
use crate::balancer::{pick_spec, rr_nth, some_ready, all_ready, Balancer};
use crate::balancer::{lemma_pick_all_ready, lemma_rr_nth_closed};
use crate::connection::{Connection, Health, BACKOFF_BASE_MS, BACKOFF_CAP_MS};
use crate::endpoint::{parse, parse_spec, Endpoint, EndpointView};
use crate::errors::{CallError, ChannelError, ConnectError};
use crate::pool::{contains_endpoint, Pool};
use vstd::string::StringSliceAdditionalSpecFns;
use vstd::utf8::encode_utf8;

verus! {

/// The endpoints of a slot sequence, in order.
pub open spec fn endpoints_of(s: Seq<Connection>) -> Seq<EndpointView> {
    s.map_values(|c: Connection| c.endpoint@)
}

/// The healths of a slot sequence, in order.
pub open spec fn healths_of(s: Seq<Connection>) -> Seq<Health> {
    s.map_values(|c: Connection| c.health)
}

pub open spec fn contains_view(s: Seq<EndpointView>, v: EndpointView) -> bool {
    exists|i: int| 0 <= i < s.len() && s[i] == v
}

/// The endpoints a configured address list yields, in configuration
/// order: each address that parses contributes its endpoint, unless
/// an earlier address already did (duplicates collapse to one slot);
/// a malformed address costs only itself.
pub open spec fn config_views(addrs: Seq<Seq<u8>>) -> Seq<EndpointView>
    decreases addrs.len(),
{
    if addrs.len() == 0 {
        Seq::empty()
    } else {
        let prefix = config_views(addrs.drop_last());
        match parse_spec(addrs.last()) {
            Ok(v) => if contains_view(prefix, v) {
                prefix
            } else {
                prefix.push(v)
            },
            Err(_) => prefix,
        }
    }
}

/// Every slot closed, everything else kept: the state `shutdown`
/// leaves behind.
pub open spec fn shutdown_conns(s: Seq<Connection>) -> Seq<Connection> {
    s.map_values(
        |c: Connection|
            Connection { endpoint: c.endpoint, health: Health::Closed, backoff_ms: c.backoff_ms },
    )
}

/// What the transport reported for one dispatched call; the channel
/// turns it into the caller's result and the slot's next health.
pub enum CallOutcome<T> {
    /// The exchange succeeded with this response.
    Reply(T),
    /// The transport failed under the call (timeout, reset, EOF).
    TransportFailure,
    /// The response was malformed; the link itself may be fine.
    BadReply,
    /// The call exceeded its deadline.
    TimedOut,
}

/// The caller-facing handle: a pool of one connection slot per
/// configured endpoint and a round-robin cursor over it. The
/// embedding program performs the transport work (dial, exchange,
/// sleep) and reports every outcome; this type decides which slot
/// serves a call, what the caller is told, and how health moves.
///
/// A failed call is surfaced once and never retried internally, on
/// this or another slot: callers compose their own retry loop, which
/// keeps per-call latency and cursor fairness predictable.
#[derive(Debug)]
pub struct Channel {
    pub pool: Pool,
    pub balancer: Balancer,
}

impl Channel {
    pub open spec fn wf(&self) -> bool {
        self.pool.wf()
    }

    /// Builds a channel over an ordered list of address strings.
    /// Duplicate addresses collapse into one slot; a malformed
    /// address is skipped and costs only its own slot; an empty list
    /// is valid and yields a channel on which every call reports
    /// `NoEndpoints`. Every slot starts connecting, with the base
    /// redial delay.
    pub fn new(addresses: &Vec<String>) -> (r: Channel)
        ensures
            r.wf(),
            r.balancer.cursor == 0,
            r.pool.conns@.len() == config_views(
                addresses@.map_values(|a: String| encode_utf8(a@)),
            ).len(),
            endpoints_of(r.pool.conns@) == config_views(
                addresses@.map_values(|a: String| encode_utf8(a@)),
            ),
            forall|i: int|
                0 <= i < r.pool.conns@.len() ==> (#[trigger] r.pool.conns@[i]).health
                    == Health::Connecting && r.pool.conns@[i].backoff_ms == BACKOFF_BASE_MS,
    {
        let ghost bs = addresses@.map_values(|a: String| encode_utf8(a@));
        let mut pool = Pool::new();
        let n: usize = addresses.len();
        let mut i: usize = 0;
        proof {
            assert(endpoints_of(pool.conns@) =~= config_views(bs.take(0)));
        }
        while i < n
            invariant
                i <= n,
                n == addresses@.len(),
                bs == addresses@.map_values(|a: String| encode_utf8(a@)),
                pool.wf(),
                endpoints_of(pool.conns@) == config_views(bs.take(i as int)),
                forall|k: int|
                    0 <= k < pool.conns@.len() ==> (#[trigger] pool.conns@[k]).health
                        == Health::Connecting && pool.conns@[k].backoff_ms == BACKOFF_BASE_MS,
            decreases n - i,
        {
            let ghost prev = pool.conns@;
            proof {
                assert(bs.take(i + 1).drop_last() =~= bs.take(i as int));
                assert(bs.take(i + 1).last() == bs[i as int]);
            }
            match parse(addresses[i].as_str()) {
                Ok(e) => {
                    let ghost ev = e@;
                    proof {
                        lemma_contains_agree(prev, ev);
                    }
                    let added = pool.add_endpoint(e);
                    proof {
                        if added {
                            assert forall|k: int| 0 <= k < prev.len() implies pool.conns@[k] == (
                            #[trigger] prev[k]) by {
                                assert(pool.conns@.subrange(0, prev.len() as int)[k]
                                    == pool.conns@[k]);
                            }
                            assert(endpoints_of(pool.conns@) =~= endpoints_of(prev).push(ev));
                        } else {
                            assert(endpoints_of(pool.conns@) =~= endpoints_of(prev));
                        }
                        assert(endpoints_of(pool.conns@) == config_views(bs.take(i + 1)));
                        assert forall|k: int| 0 <= k < pool.conns@.len() implies (
                        #[trigger] pool.conns@[k]).health == Health::Connecting
                            && pool.conns@[k].backoff_ms == BACKOFF_BASE_MS by {
                            if added && k < prev.len() {
                                assert(pool.conns@.subrange(0, prev.len() as int)[k]
                                    == pool.conns@[k]);
                                assert(pool.conns@[k] == prev[k]);
                            } else if added {
                                assert(pool.conns@[k] == pool.conns@.last());
                            }
                        }
                    }
                },
                Err(_) => {
                    proof {
                        assert(endpoints_of(pool.conns@) == config_views(bs.take(i + 1)));
                    }
                },
            }
            i = i + 1;
        }
        proof {
            assert(bs.take(n as int) =~= bs);
        }
        Channel { pool, balancer: Balancer::new() }
    }

    /// Selects the slot that serves the next call: the first ready
    /// slot strictly after the cursor in configuration order,
    /// wrapping, and moves the cursor there. With no ready slot —
    /// in particular on an empty endpoint list — the call fails
    /// immediately with `NoEndpoints`: no blocking wait, no queue.
    pub fn pick_connection(&mut self) -> (r: Result<usize, ChannelError>)
        requires
            old(self).wf(),
        ensures
            final(self).wf(),
            final(self).pool == old(self).pool,
            (r is Ok) == some_ready(healths_of(old(self).pool.conns@)),
            old(self).pool.conns@.len() == 0 ==> r == Err::<usize, ChannelError>(
                ChannelError::NoEndpoints,
            ),
            match r {
                Ok(i) => pick_spec(healths_of(old(self).pool.conns@), old(self).balancer.cursor as int)
                    == Option::Some(i as int) && i < old(self).pool.conns@.len() && old(
                self).pool.conns@[i as int].health is Ready && final(self).balancer.cursor == i,
                Err(e) => e == ChannelError::NoEndpoints && *final(self) == *old(self),
            },
    {
        let snap = self.pool.snapshot();
        proof {
            assert(snap@ =~= healths_of(self.pool.conns@));
        }
        match self.balancer.pick(&snap) {
            Option::Some(i) => Ok(i),
            Option::None => Err(ChannelError::NoEndpoints),
        }
    }

    /// Settles a call dispatched on slot `i` from what the transport
    /// reported. A reply is handed back exactly as received — the
    /// response of this call, from this slot, with no cross-talk. A
    /// transport failure is surfaced once as `Unavailable` and marks
    /// the slot failed, so redial starts; a malformed reply or a
    /// deadline surfaces as `Protocol` or `Timeout` with the slot's
    /// health untouched.
    pub fn complete_call<T>(&mut self, i: usize, outcome: CallOutcome<T>) -> (r: Result<
        T,
        ChannelError,
    >)
        requires
            old(self).wf(),
            i < old(self).pool.conns@.len(),
            old(self).pool.conns@[i as int].health is Ready,
        ensures
            final(self).wf(),
            final(self).balancer == old(self).balancer,
            final(self).pool.conns@.len() == old(self).pool.conns@.len(),
            match outcome {
                CallOutcome::Reply(t) => r == Ok::<T, ChannelError>(t) && *final(self) == *old(
                    self,
                ),
                CallOutcome::TransportFailure => r == Err::<T, ChannelError>(
                    ChannelError::Call(CallError::Unavailable),
                ) && final(self).pool.conns@[i as int].health == Health::Failed(ConnectError::Io)
                    && final(self).pool.conns@[i as int].backoff_ms == BACKOFF_BASE_MS && final(
                self).pool.conns@[i as int].endpoint@ == old(self).pool.conns@[i as int].endpoint@
                    && forall|k: int|
                    0 <= k < old(self).pool.conns@.len() && k != i ==> (
                    #[trigger] final(self).pool.conns@[k]) == old(self).pool.conns@[k],
                CallOutcome::BadReply => r == Err::<T, ChannelError>(
                    ChannelError::Call(CallError::Protocol),
                ) && *final(self) == *old(self),
                CallOutcome::TimedOut => r == Err::<T, ChannelError>(
                    ChannelError::Call(CallError::Timeout),
                ) && *final(self) == *old(self),
            },
    {
        match outcome {
            CallOutcome::Reply(t) => Ok(t),
            CallOutcome::TransportFailure => {
                self.pool.report_send_failure(i);
                Err(ChannelError::Call(CallError::Unavailable))
            },
            CallOutcome::BadReply => Err(ChannelError::Call(CallError::Protocol)),
            CallOutcome::TimedOut => Err(ChannelError::Call(CallError::Timeout)),
        }
    }

    /// Scoped teardown: every slot is closed, mid-dial ones
    /// included, so no redial is ever scheduled again; the slot set
    /// and cursor are kept. Closing a closed slot changes nothing,
    /// so a second shutdown has no effect beyond the first (see
    /// `lemma_shutdown_idempotent`).
    pub fn shutdown(&mut self)
        requires
            old(self).wf(),
        ensures
            final(self).wf(),
            final(self).balancer == old(self).balancer,
            final(self).pool.conns@ == shutdown_conns(old(self).pool.conns@),
            forall|i: int|
                0 <= i < final(self).pool.conns@.len() ==> (
                #[trigger] final(self).pool.conns@[i]).health == Health::Closed,
    {
        self.pool.close_all();
        proof {
            assert(self.pool.conns@ =~= shutdown_conns(old(self).pool.conns@));
        }
    }
}

/// A slot sequence mentions an endpoint exactly when its endpoint
/// sequence does.
pub proof fn lemma_contains_agree(s: Seq<Connection>, v: EndpointView)
    ensures
        contains_endpoint(s, v) == contains_view(endpoints_of(s), v),
{
    if contains_endpoint(s, v) {
        let i = choose|i: int| 0 <= i < s.len() && (#[trigger] s[i]).endpoint@ == v;
        assert(endpoints_of(s)[i] == v);
    }
    if contains_view(endpoints_of(s), v) {
        let i = choose|i: int| 0 <= i < endpoints_of(s).len() && endpoints_of(s)[i] == v;
        assert(s[i].endpoint@ == v);
    }
}

/// Shutting a channel down twice leaves exactly the state the first
/// shutdown left: closing is idempotent, and nothing is torn down
/// twice.
pub proof fn lemma_shutdown_idempotent(s: Seq<Connection>)
    ensures
        shutdown_conns(shutdown_conns(s)) == shutdown_conns(s),
{
    assert(shutdown_conns(shutdown_conns(s)) =~= shutdown_conns(s));
}

/// In a well-formed channel no slot's redial delay exceeds the cap:
/// a recovering endpoint is always redialed within the bounded
/// backoff window, never pushed out indefinitely.
pub proof fn lemma_redial_within_cap(ch: &Channel, i: int)
    requires
        ch.wf(),
        0 <= i < ch.pool.conns@.len(),
    ensures
        BACKOFF_BASE_MS <= ch.pool.conns@[i].backoff_ms <= BACKOFF_CAP_MS,
{
}

/// Cursor fairness over a pool whose slots are all ready: the next
/// pick lands one past the cursor, and the `k`-th consecutive pick
/// lands on `rr_nth(c, n, k) == (c + 1 + k) % n` — so within one
/// full turn no slot is served twice before every slot is served
/// once (`lemma_round_robin_fair`).
pub proof fn lemma_pick_follows_round_robin(h: Seq<Health>, c: int, k: nat)
    requires
        h.len() > 0,
        c >= 0,
        all_ready(h),
    ensures
        pick_spec(h, rr_nth(c, h.len() as int, k)) == Some(rr_nth(c, h.len() as int, k + 1)),
        rr_nth(c, h.len() as int, k) == (c + 1 + k) % (h.len() as int),
{
    let n = h.len() as int;
    lemma_rr_nth_closed(c, n, k);
    vstd::arithmetic::div_mod::lemma_mod_bound(c + 1 + k, n);
    lemma_pick_all_ready(h, rr_nth(c, n, k));
}

} // verus!
