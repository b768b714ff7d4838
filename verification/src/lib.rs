//! Verified core of the Nowhere relay: target-address validation, the
//! spec-ordered TCP request frame, spec-input checks, the token-bucket rate
//! limiter, session counters and the TLS/TCP connection decisions.

pub mod portal;
pub mod protocol;
pub mod transport;
