//! Decisions of an accepted TLS/TCP client connection.
//!
//! A connection goes through the TLS handshake, authentication, enabling TCP
//! keepalive, waiting in the pool of authenticated connections for its first
//! request, and relaying. The caller performs each step and reports how it
//! ended; [`step`] says what comes next.

use vstd::prelude::*;

use crate::protocol::spec_input::bytes_equal;

verus! {

/// How long, in seconds, an authenticated connection may wait in the pool
/// for its first request before [`ConnEvent::PoolExpired`] closes it.
pub const TCP_POOL_TTL_SECS: u64 = 40;

/// The reserved request target that opens a UDP-over-TCP session.
pub const UOT_MAGIC_TARGET: &'static str = "uot.nowhere.invalid:0";

/// Whether `target` is the reserved UDP-over-TCP target.
pub fn is_uot_magic_target(target: &str) -> (res: bool)
    ensures
        res == (target@ == UOT_MAGIC_TARGET@),
{
    let a = target.as_bytes();
    let b = UOT_MAGIC_TARGET.as_bytes();
    let same = bytes_equal(a, b);
    proof {
        vstd::utf8::encode_utf8_decode_utf8(target@);
        vstd::utf8::encode_utf8_decode_utf8(UOT_MAGIC_TARGET@);
    }
    same
}

/// Where a connection stands.
#[derive(Debug, Clone, Copy, PartialEq, Eq, Structural)]
pub enum ConnState {
    /// The TLS handshake is running; the pre-authentication admission is held.
    Handshaking,
    /// Authentication is running; the admission is held.
    Authenticating,
    /// Authentication failed; the connection is held until the
    /// authentication deadline so that failures are not answered early.
    AwaitingAuthDeadline,
    /// Authenticated; TCP keepalive is being enabled.
    Configuring,
    /// Authenticated and pooled, waiting for the first request.
    Pooled,
    /// Relaying for a request.
    Relaying,
    /// Done; the connection is dropped.
    Closed,
}

/// How a step that the caller performed ended.
#[derive(Debug)]
pub enum ConnEvent {
    HandshakeSucceeded,
    HandshakeFailed,
    HandshakeTimedOut,
    AuthSucceeded,
    AuthFailed,
    AuthTimedOut,
    AuthDeadlineReached,
    KeepaliveEnabled,
    KeepaliveFailed,
    /// The client closed a pooled connection before sending any request byte.
    PoolClosedByClient,
    /// A request frame arrived with this target.
    RequestReceived(String),
    RequestFailed,
    PoolExpired,
    RelayFinished,
    /// The portal is shutting down.
    Shutdown,
}

/// Why a connection closes.
#[derive(Debug, Clone, Copy, PartialEq, Eq, Structural)]
pub enum CloseReason {
    HandshakeFailed,
    HandshakeTimedOut,
    AuthFailed,
    AuthTimedOut,
    KeepaliveFailed,
    PoolClosedByClient,
    RequestFailed,
    PoolExpired,
    RelayFinished,
    Shutdown,
}

/// What the caller does next.
#[derive(Debug)]
pub enum ConnAction {
    /// Read the authentication frame before the authentication deadline.
    Authenticate,
    /// Release the pre-authentication admission and enable TCP keepalive.
    ReleaseAdmissionAndEnableKeepalive,
    /// Wait until the authentication deadline, unless shutdown comes first.
    WaitForAuthDeadline,
    /// Join the pool and wait for the first request, up to the pool TTL
    /// ([`TCP_POOL_TTL_SECS`]).
    AwaitRequest,
    /// Leave the pool and relay TCP to this target.
    RelayTcp(String),
    /// Leave the pool and relay UDP over this connection.
    RelayUdpOverTcp,
    /// Drop the connection, and with it whatever it still holds.
    Close(CloseReason),
    /// Nothing: the event does not apply in this state.
    Ignore,
}

/// The next state after `event` in state `s`.
pub open spec fn next_state(s: ConnState, event: ConnEvent) -> ConnState {
    match (s, event) {
        (ConnState::Handshaking, ConnEvent::HandshakeSucceeded) => ConnState::Authenticating,
        (ConnState::Handshaking, ConnEvent::HandshakeFailed) => ConnState::Closed,
        (ConnState::Handshaking, ConnEvent::HandshakeTimedOut) => ConnState::Closed,
        (ConnState::Authenticating, ConnEvent::AuthSucceeded) => ConnState::Configuring,
        (ConnState::Authenticating, ConnEvent::AuthFailed) => ConnState::AwaitingAuthDeadline,
        (ConnState::Authenticating, ConnEvent::AuthTimedOut) => ConnState::Closed,
        (ConnState::Authenticating, ConnEvent::Shutdown) => ConnState::Closed,
        (ConnState::AwaitingAuthDeadline, ConnEvent::AuthDeadlineReached) => ConnState::Closed,
        (ConnState::AwaitingAuthDeadline, ConnEvent::Shutdown) => ConnState::Closed,
        (ConnState::Configuring, ConnEvent::KeepaliveEnabled) => ConnState::Pooled,
        (ConnState::Configuring, ConnEvent::KeepaliveFailed) => ConnState::Closed,
        (ConnState::Pooled, ConnEvent::RequestReceived(_)) => ConnState::Relaying,
        (ConnState::Pooled, ConnEvent::PoolClosedByClient) => ConnState::Closed,
        (ConnState::Pooled, ConnEvent::RequestFailed) => ConnState::Closed,
        (ConnState::Pooled, ConnEvent::PoolExpired) => ConnState::Closed,
        (ConnState::Pooled, ConnEvent::Shutdown) => ConnState::Closed,
        (ConnState::Relaying, ConnEvent::RelayFinished) => ConnState::Closed,
        (ConnState::Relaying, ConnEvent::Shutdown) => ConnState::Closed,
        (s, _) => s,
    }
}

/// The action after `event` in state `s`.
pub open spec fn next_action(s: ConnState, event: ConnEvent) -> ConnAction {
    match (s, event) {
        (ConnState::Handshaking, ConnEvent::HandshakeSucceeded) => ConnAction::Authenticate,
        (ConnState::Handshaking, ConnEvent::HandshakeFailed) => ConnAction::Close(
            CloseReason::HandshakeFailed,
        ),
        (ConnState::Handshaking, ConnEvent::HandshakeTimedOut) => ConnAction::Close(
            CloseReason::HandshakeTimedOut,
        ),
        (ConnState::Authenticating, ConnEvent::AuthSucceeded) => ConnAction::ReleaseAdmissionAndEnableKeepalive,
        (ConnState::Authenticating, ConnEvent::AuthFailed) => ConnAction::WaitForAuthDeadline,
        (ConnState::Authenticating, ConnEvent::AuthTimedOut) => ConnAction::Close(
            CloseReason::AuthTimedOut,
        ),
        (ConnState::Authenticating, ConnEvent::Shutdown) => ConnAction::Close(
            CloseReason::Shutdown,
        ),
        (ConnState::AwaitingAuthDeadline, ConnEvent::AuthDeadlineReached) => ConnAction::Close(
            CloseReason::AuthFailed,
        ),
        (ConnState::AwaitingAuthDeadline, ConnEvent::Shutdown) => ConnAction::Close(
            CloseReason::Shutdown,
        ),
        (ConnState::Configuring, ConnEvent::KeepaliveEnabled) => ConnAction::AwaitRequest,
        (ConnState::Configuring, ConnEvent::KeepaliveFailed) => ConnAction::Close(
            CloseReason::KeepaliveFailed,
        ),
        (ConnState::Pooled, ConnEvent::RequestReceived(t)) => if t@ == UOT_MAGIC_TARGET@ {
            ConnAction::RelayUdpOverTcp
        } else {
            ConnAction::RelayTcp(t)
        },
        (ConnState::Pooled, ConnEvent::PoolClosedByClient) => ConnAction::Close(
            CloseReason::PoolClosedByClient,
        ),
        (ConnState::Pooled, ConnEvent::RequestFailed) => ConnAction::Close(
            CloseReason::RequestFailed,
        ),
        (ConnState::Pooled, ConnEvent::PoolExpired) => ConnAction::Close(CloseReason::PoolExpired),
        (ConnState::Pooled, ConnEvent::Shutdown) => ConnAction::Close(CloseReason::Shutdown),
        (ConnState::Relaying, ConnEvent::RelayFinished) => ConnAction::Close(
            CloseReason::RelayFinished,
        ),
        (ConnState::Relaying, ConnEvent::Shutdown) => ConnAction::Close(CloseReason::Shutdown),
        _ => ConnAction::Ignore,
    }
}

/// Decides what follows `event` in state `s`.
pub fn step(s: ConnState, event: ConnEvent) -> (res: (ConnState, ConnAction))
    ensures
        res.0 == next_state(s, event),
        res.1 == next_action(s, event),
{
    match (s, event) {
        (ConnState::Handshaking, ConnEvent::HandshakeSucceeded) => (
            ConnState::Authenticating,
            ConnAction::Authenticate,
        ),
        (ConnState::Handshaking, ConnEvent::HandshakeFailed) => (
            ConnState::Closed,
            ConnAction::Close(CloseReason::HandshakeFailed),
        ),
        (ConnState::Handshaking, ConnEvent::HandshakeTimedOut) => (
            ConnState::Closed,
            ConnAction::Close(CloseReason::HandshakeTimedOut),
        ),
        (ConnState::Authenticating, ConnEvent::AuthSucceeded) => (
            ConnState::Configuring,
            ConnAction::ReleaseAdmissionAndEnableKeepalive,
        ),
        (ConnState::Authenticating, ConnEvent::AuthFailed) => (
            ConnState::AwaitingAuthDeadline,
            ConnAction::WaitForAuthDeadline,
        ),
        (ConnState::Authenticating, ConnEvent::AuthTimedOut) => (
            ConnState::Closed,
            ConnAction::Close(CloseReason::AuthTimedOut),
        ),
        (ConnState::Authenticating, ConnEvent::Shutdown) => (
            ConnState::Closed,
            ConnAction::Close(CloseReason::Shutdown),
        ),
        (ConnState::AwaitingAuthDeadline, ConnEvent::AuthDeadlineReached) => (
            ConnState::Closed,
            ConnAction::Close(CloseReason::AuthFailed),
        ),
        (ConnState::AwaitingAuthDeadline, ConnEvent::Shutdown) => (
            ConnState::Closed,
            ConnAction::Close(CloseReason::Shutdown),
        ),
        (ConnState::Configuring, ConnEvent::KeepaliveEnabled) => (
            ConnState::Pooled,
            ConnAction::AwaitRequest,
        ),
        (ConnState::Configuring, ConnEvent::KeepaliveFailed) => (
            ConnState::Closed,
            ConnAction::Close(CloseReason::KeepaliveFailed),
        ),
        (ConnState::Pooled, ConnEvent::RequestReceived(t)) => {
            if is_uot_magic_target(t.as_str()) {
                (ConnState::Relaying, ConnAction::RelayUdpOverTcp)
            } else {
                (ConnState::Relaying, ConnAction::RelayTcp(t))
            }
        },
        (ConnState::Pooled, ConnEvent::PoolClosedByClient) => (
            ConnState::Closed,
            ConnAction::Close(CloseReason::PoolClosedByClient),
        ),
        (ConnState::Pooled, ConnEvent::RequestFailed) => (
            ConnState::Closed,
            ConnAction::Close(CloseReason::RequestFailed),
        ),
        (ConnState::Pooled, ConnEvent::PoolExpired) => (
            ConnState::Closed,
            ConnAction::Close(CloseReason::PoolExpired),
        ),
        (ConnState::Pooled, ConnEvent::Shutdown) => (
            ConnState::Closed,
            ConnAction::Close(CloseReason::Shutdown),
        ),
        (ConnState::Relaying, ConnEvent::RelayFinished) => (
            ConnState::Closed,
            ConnAction::Close(CloseReason::RelayFinished),
        ),
        (ConnState::Relaying, ConnEvent::Shutdown) => (
            ConnState::Closed,
            ConnAction::Close(CloseReason::Shutdown),
        ),
        (s, _) => (s, ConnAction::Ignore),
    }
}


/// Whether the connection has authenticated.
pub open spec fn authenticated(s: ConnState) -> bool {
    s == ConnState::Configuring || s == ConnState::Pooled || s == ConnState::Relaying
}

/// How far along its life a connection is.
pub open spec fn progress(s: ConnState) -> int {
    match s {
        ConnState::Handshaking => 0,
        ConnState::Authenticating => 1,
        ConnState::AwaitingAuthDeadline => 2,
        ConnState::Configuring => 2,
        ConnState::Pooled => 3,
        ConnState::Relaying => 4,
        ConnState::Closed => 5,
    }
}

/// The state after feeding `events`, in order, from state `s`.
pub open spec fn run(s: ConnState, events: Seq<ConnEvent>) -> ConnState
    decreases events.len(),
{
    if events.len() == 0 {
        s
    } else {
        next_state(run(s, events.drop_last()), events.last())
    }
}

/// A closed connection stays closed and does nothing more.
pub proof fn law_closed_is_final(event: ConnEvent)
    ensures
        next_state(ConnState::Closed, event) == ConnState::Closed,
        next_action(ConnState::Closed, event) is Ignore,
{
}

/// A connection only moves forward: no event takes it back to an earlier
/// phase, so it never handshakes or authenticates twice.
pub proof fn law_progress_never_decreases(s: ConnState, event: ConnEvent)
    ensures
        progress(next_state(s, event)) >= progress(s),
{
}

/// A failed authentication is not answered early: after `AuthFailed` the
/// connection waits, and closes only at the authentication deadline or at
/// shutdown.
pub proof fn law_auth_failure_waits_for_deadline(event: ConnEvent)
    ensures
        next_state(ConnState::Authenticating, ConnEvent::AuthFailed)
            == ConnState::AwaitingAuthDeadline,
        next_state(ConnState::AwaitingAuthDeadline, event) == ConnState::Closed <==> (
        event is AuthDeadlineReached || event is Shutdown),
        next_state(ConnState::AwaitingAuthDeadline, event) != ConnState::Closed ==> next_state(
            ConnState::AwaitingAuthDeadline,
            event,
        ) == ConnState::AwaitingAuthDeadline,
{
}

/// Only authentication leads to relaying: whatever events a connection sees
/// from its handshake on, if it ends up authenticated (and so if it ever
/// relays), one of those events was a successful authentication.
pub proof fn law_relay_requires_authentication(events: Seq<ConnEvent>)
    ensures
        authenticated(run(ConnState::Handshaking, events)) ==> events.contains(
            ConnEvent::AuthSucceeded,
        ),
    decreases events.len(),
{
    if events.len() > 0 {
        let prefix = events.drop_last();
        law_relay_requires_authentication(prefix);
        let before = run(ConnState::Handshaking, prefix);
        if authenticated(run(ConnState::Handshaking, events)) {
            if prefix.contains(ConnEvent::AuthSucceeded) {
                let j = choose|j: int|
                    0 <= j < prefix.len() && #[trigger] prefix[j] == ConnEvent::AuthSucceeded;
                assert(events[j] == ConnEvent::AuthSucceeded);
            } else {
                assert(events.last() == ConnEvent::AuthSucceeded);
                assert(events[events.len() - 1] == ConnEvent::AuthSucceeded);
            }
        }
    }
}


/// Only a successful TLS handshake moves a connection on to authentication;
/// a failed or timed-out handshake closes it, saying why, and every other
/// event leaves it handshaking.
pub proof fn law_only_a_successful_handshake_authenticates(event: ConnEvent)
    ensures
        next_state(ConnState::Handshaking, event) == ConnState::Authenticating <==> event is HandshakeSucceeded,
        next_state(ConnState::Handshaking, event) == ConnState::Closed <==> (event is HandshakeFailed
            || event is HandshakeTimedOut),
        event is HandshakeSucceeded ==> next_action(ConnState::Handshaking, event) is Authenticate,
        event is HandshakeFailed ==> next_action(ConnState::Handshaking, event) == ConnAction::Close(
            CloseReason::HandshakeFailed,
        ),
        event is HandshakeTimedOut ==> next_action(ConnState::Handshaking, event)
            == ConnAction::Close(CloseReason::HandshakeTimedOut),
        !(event is HandshakeSucceeded || event is HandshakeFailed || event is HandshakeTimedOut)
            ==> next_state(ConnState::Handshaking, event) == ConnState::Handshaking,
{
}

/// Whether an event reports that a step failed, timed out or was cut short.
pub open spec fn is_failure(event: ConnEvent) -> bool {
    ||| event is HandshakeFailed
    ||| event is HandshakeTimedOut
    ||| event is AuthFailed
    ||| event is AuthTimedOut
    ||| event is KeepaliveFailed
    ||| event is PoolClosedByClient
    ||| event is RequestFailed
    ||| event is PoolExpired
    ||| event is Shutdown
}

/// A failure never moves a connection on to an authenticated or relaying
/// state: it is ignored, closes the connection, or (for a rejected
/// authentication) holds it until the deadline; whenever it closes the
/// connection, the action is a close.
pub proof fn law_failures_never_advance(s: ConnState, event: ConnEvent)
    requires
        is_failure(event),
    ensures
        next_state(s, event) == s || next_state(s, event) == ConnState::Closed || (s
            == ConnState::Authenticating && event is AuthFailed && next_state(s, event)
            == ConnState::AwaitingAuthDeadline),
        !authenticated(s) ==> !authenticated(next_state(s, event)),
        next_state(s, event) == ConnState::Closed && s != ConnState::Closed ==> next_action(
            s,
            event,
        ) is Close,
{
}


/// A pooled connection's first request is relayed: over UDP exactly when its
/// target is the reserved UDP-over-TCP target, and otherwise over TCP to
/// that same target.
pub proof fn law_request_dispatch(target: String)
    ensures
        next_state(ConnState::Pooled, ConnEvent::RequestReceived(target)) == ConnState::Relaying,
        target@ == UOT_MAGIC_TARGET@ ==> next_action(
            ConnState::Pooled,
            ConnEvent::RequestReceived(target),
        ) is RelayUdpOverTcp,
        target@ != UOT_MAGIC_TARGET@ ==> next_action(
            ConnState::Pooled,
            ConnEvent::RequestReceived(target),
        ) == ConnAction::RelayTcp(target),
{
}

} // verus!
