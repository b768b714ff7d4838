# nowhere

The verified core of the Nowhere relay protocol, written in Verus.

- `src/protocol/util.rs`: `host:port` target validation and the target length bound.
- `src/protocol/request.rs`: the spec-ordered TCP request frame, its writer and its
  decoder; `src/protocol/frame_laws.rs` proves that they invert each other.
- `src/protocol/spec_input.rs`: the shared key from the URL user name, query values,
  and input length checks.
- `src/transport/`: relay buffers, the token bucket and the two-way rate limiter,
  and the session counters.
- `src/portal/conn.rs`: the decisions of a TLS/TCP client connection, from handshake
  to relay, with the laws that only authenticated connections relay.
- `app/lib.rs`: the async and shared-state glue (stream reading, sleeping, URL access,
  guards).
