use vstd::prelude::*;

verus! {

/// Why an endpoint address string was rejected at configuration time.
/// A malformed address costs only that slot; the channel itself is built.
#[derive(Clone, Copy, Debug, PartialEq, Eq, Structural)]
pub enum ConfigError {
    /// The address is empty, or empty after the scheme separator.
    Empty,
    /// A scheme separator `://` is present but the scheme before it is
    /// empty or holds a character outside letters, digits, `+`, `-`, `.`.
    BadScheme,
    /// A bracketed host `[...` has no closing `]`.
    UnclosedBracket,
    /// No `:` introducing a port was found after the host.
    MissingPort,
    /// The host part is empty.
    EmptyHost,
    /// The port part is empty, holds a non-digit, or exceeds 65535.
    BadPort,
}

/// Why a dial attempt failed. Recovered by background redial with
/// backoff; never surfaced directly through a call.
#[derive(Clone, Copy, Debug, PartialEq, Eq, Structural)]
pub enum ConnectError {
    /// The peer refused the connection.
    Refused,
    /// The dial attempt timed out.
    Timeout,
    /// Any other transport-level dial failure.
    Io,
}

/// A call-scoped failure, surfaced to the caller exactly once.
#[derive(Clone, Copy, Debug, PartialEq, Eq, Structural)]
pub enum CallError {
    /// The chosen connection's transport failed during this call;
    /// the connection transitions to Failed.
    Unavailable,
    /// The response was malformed; the link may still be usable, so
    /// the connection's health is unchanged.
    Protocol,
    /// The call exceeded its deadline; health is unchanged.
    Timeout,
}

/// What a channel call can report.
#[derive(Clone, Copy, Debug, PartialEq, Eq, Structural)]
pub enum ChannelError {
    /// No connection is ready: the endpoint list is empty or every
    /// slot is connecting, failed or closed. Surfaced immediately.
    NoEndpoints,
    /// The chosen connection failed the call; carries the call error.
    Call(CallError),
}

} // verus!
