use nowhere::portal::conn::{
    is_uot_magic_target, step, CloseReason, ConnAction, ConnEvent, ConnState,
};

#[test]
fn recognises_only_the_reserved_uot_target() {
    assert!(is_uot_magic_target("uot.nowhere.invalid:0"));
    assert!(!is_uot_magic_target("uot.nowhere.invalid:1"));
    assert!(!is_uot_magic_target("example.com:443"));
    assert!(!is_uot_magic_target(""));
}

#[test]
fn authenticated_request_is_relayed() {
    let (s, a) = step(ConnState::Handshaking, ConnEvent::HandshakeSucceeded);
    assert_eq!(s, ConnState::Authenticating);
    assert!(matches!(a, ConnAction::Authenticate));
    let (s, a) = step(s, ConnEvent::AuthSucceeded);
    assert_eq!(s, ConnState::Configuring);
    assert!(matches!(a, ConnAction::ReleaseAdmissionAndEnableKeepalive));
    let (s, a) = step(s, ConnEvent::KeepaliveEnabled);
    assert_eq!(s, ConnState::Pooled);
    assert!(matches!(a, ConnAction::AwaitRequest));
    let (s, a) = step(s, ConnEvent::RequestReceived("example.com:443".to_string()));
    assert_eq!(s, ConnState::Relaying);
    assert!(matches!(a, ConnAction::RelayTcp(t) if t == "example.com:443"));
    let (s, a) = step(s, ConnEvent::RelayFinished);
    assert_eq!(s, ConnState::Closed);
    assert!(matches!(a, ConnAction::Close(CloseReason::RelayFinished)));
}

#[test]
fn uot_target_opens_udp_over_tcp() {
    let (s, a) = step(
        ConnState::Pooled,
        ConnEvent::RequestReceived("uot.nowhere.invalid:0".to_string()),
    );
    assert_eq!(s, ConnState::Relaying);
    assert!(matches!(a, ConnAction::RelayUdpOverTcp));
}

#[test]
fn failed_authentication_waits_for_the_deadline() {
    let (s, a) = step(ConnState::Authenticating, ConnEvent::AuthFailed);
    assert_eq!(s, ConnState::AwaitingAuthDeadline);
    assert!(matches!(a, ConnAction::WaitForAuthDeadline));
    let (s2, a) = step(s, ConnEvent::RequestReceived("example.com:443".to_string()));
    assert_eq!(s2, ConnState::AwaitingAuthDeadline);
    assert!(matches!(a, ConnAction::Ignore));
    let (s3, a) = step(s, ConnEvent::AuthDeadlineReached);
    assert_eq!(s3, ConnState::Closed);
    assert!(matches!(a, ConnAction::Close(CloseReason::AuthFailed)));
}

#[test]
fn pool_outcomes_close_the_connection() {
    for (event, reason) in [
        (ConnEvent::PoolClosedByClient, CloseReason::PoolClosedByClient),
        (ConnEvent::RequestFailed, CloseReason::RequestFailed),
        (ConnEvent::PoolExpired, CloseReason::PoolExpired),
        (ConnEvent::Shutdown, CloseReason::Shutdown),
    ] {
        let (s, a) = step(ConnState::Pooled, event);
        assert_eq!(s, ConnState::Closed);
        assert!(matches!(a, ConnAction::Close(r) if r == reason));
    }
}

#[test]
fn handshake_ignores_shutdown_and_closed_stays_closed() {
    let (s, a) = step(ConnState::Handshaking, ConnEvent::Shutdown);
    assert_eq!(s, ConnState::Handshaking);
    assert!(matches!(a, ConnAction::Ignore));
    let (s, a) = step(ConnState::Handshaking, ConnEvent::HandshakeTimedOut);
    assert_eq!(s, ConnState::Closed);
    assert!(matches!(a, ConnAction::Close(CloseReason::HandshakeTimedOut)));
    let (s, a) = step(ConnState::Closed, ConnEvent::AuthSucceeded);
    assert_eq!(s, ConnState::Closed);
    assert!(matches!(a, ConnAction::Ignore));
    // Without authentication there is no way to the pool.
    let (s, _) = step(ConnState::Authenticating, ConnEvent::KeepaliveEnabled);
    assert_eq!(s, ConnState::Authenticating);
}
