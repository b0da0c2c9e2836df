//! A client-side load-balancing channel for unary request/response
//! calls: a fixed list of endpoints, one connection slot per endpoint,
//! round-robin selection over the ready slots, and background redial
//! with capped exponential backoff. The transport itself (dialing a
//! link, performing one exchange) is a collaborator driven by the
//! embedding program; this crate holds and verifies every decision:
//! which slot serves the next call, how health transitions on each
//! outcome, and what error the caller sees.

pub mod errors;
pub mod endpoint;
pub mod connection;
pub mod pool;
pub mod balancer;
pub mod channel;
