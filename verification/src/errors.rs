use vstd::prelude::*;

verus! {

/// A reason a configuration is rejected at load time. A snapshot holding any
/// of these is never adopted: the load fails as a whole.
#[derive(Clone, Copy, Debug, PartialEq, Eq, Structural)]
pub enum ConfigError {
    /// Two upstream target sets of one gateway share an id.
    DuplicateTargetId,
    /// A rule forwards to a target id that no target set of its gateway has.
    DanglingTargetReference,
    /// An address is malformed: empty host or path, or a port that does not
    /// fit the address kind.
    InvalidAddress,
    /// A path pattern does not compile.
    InvalidPattern,
    /// An upstream target set has no peers.
    EmptyPeerList,
}

/// A request-time failure: the closed taxonomy the gateway reports to the
/// proxy runtime that drives it.
#[derive(Clone, Debug)]
pub enum Error {
    /// No match rule was satisfied; surfaced to the client as not-found.
    RouteMiss,
    /// No eligible peer in the matched target set; surfaced as
    /// service-unavailable after bounded retries.
    UpstreamUnavailable,
    /// One connection attempt to a selected peer failed; retried against
    /// another peer before escalating to `UpstreamUnavailable`.
    UpstreamConnectFailure,
    /// A shared-state guard was left inconsistent by a failed concurrent
    /// participant; an internal fault, never coerced into a client error.
    LockPoisoned(String),
    /// A failure reported by the proxy runtime itself; propagated as-is.
    UnderlyingRuntimeError(String),
}

/// How the gateway treats one `Error`: the pipeline either retries it,
/// answers the client, or propagates it as fatal.
#[derive(Clone, Copy, Debug, PartialEq, Eq, Structural)]
pub enum ErrorClass {
    /// Retried by the pipeline itself before anything is surfaced.
    RetriedInternally,
    /// Surfaced immediately as a client-visible response.
    ClientVisible,
    /// A programming or invariant violation; propagated as fatal.
    Fatal,
    /// A runtime-reported failure, handed back unchanged.
    Propagated,
}

/// The class each error falls in.
pub open spec fn spec_classify(e: Error) -> ErrorClass {
    match e {
        Error::RouteMiss => ErrorClass::ClientVisible,
        Error::UpstreamUnavailable => ErrorClass::ClientVisible,
        Error::UpstreamConnectFailure => ErrorClass::RetriedInternally,
        Error::LockPoisoned(_) => ErrorClass::Fatal,
        Error::UnderlyingRuntimeError(_) => ErrorClass::Propagated,
    }
}

/// The status code a client-visible error is answered with; internal faults
/// and propagated runtime failures map to a bare server error.
pub open spec fn spec_status(e: Error) -> u16 {
    match e {
        Error::RouteMiss => 404,
        Error::UpstreamUnavailable => 503,
        Error::UpstreamConnectFailure => 502,
        Error::LockPoisoned(_) => 500,
        Error::UnderlyingRuntimeError(_) => 500,
    }
}

impl Error {
    /// Classifies the error for the unification boundary: retry, answer the
    /// client, or propagate as fatal.
    pub fn classify(&self) -> (c: ErrorClass)
        ensures
            c == spec_classify(*self),
    {
        match self {
            Error::RouteMiss => ErrorClass::ClientVisible,
            Error::UpstreamUnavailable => ErrorClass::ClientVisible,
            Error::UpstreamConnectFailure => ErrorClass::RetriedInternally,
            Error::LockPoisoned(_) => ErrorClass::Fatal,
            Error::UnderlyingRuntimeError(_) => ErrorClass::Propagated,
        }
    }

    /// The downstream status code for this error.
    pub fn status_code(&self) -> (s: u16)
        ensures
            s == spec_status(*self),
    {
        match self {
            Error::RouteMiss => 404,
            Error::UpstreamUnavailable => 503,
            Error::UpstreamConnectFailure => 502,
            Error::LockPoisoned(_) => 500,
            Error::UnderlyingRuntimeError(_) => 500,
        }
    }

    /// True exactly for the internal faults that must never be swallowed.
    pub fn is_fatal(&self) -> (r: bool)
        ensures
            r == (spec_classify(*self) == ErrorClass::Fatal),
    {
        match self {
            Error::LockPoisoned(_) => true,
            _ => false,
        }
    }
}

} // verus!
