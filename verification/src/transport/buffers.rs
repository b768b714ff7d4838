//! Per-session scratch-buffer sizing.

use vstd::prelude::*;

verus! {

/// Buffer size configuration used to allocate fresh relay scratch buffers.
#[derive(Debug, Clone)]
pub struct Buffers {
    tcp_size: usize,
    udp_size: usize,
}

impl Buffers {
    /// The configured size of TCP relay buffers.
    pub closed spec fn spec_tcp_size(&self) -> usize {
        self.tcp_size
    }

    /// The configured size of UDP relay buffers.
    pub closed spec fn spec_udp_size(&self) -> usize {
        self.udp_size
    }

    /// Creates a buffer-size pair for TCP and UDP relay paths.
    pub fn new(tcp_size: usize, udp_size: usize) -> (res: Self)
        ensures
            res.spec_tcp_size() == tcp_size,
            res.spec_udp_size() == udp_size,
    {
        Self { tcp_size, udp_size }
    }

    /// Allocates a zeroed TCP relay buffer.
    pub fn get_tcp_buffer(&self) -> (buf: Vec<u8>)
        ensures
            buf@ == Seq::new(self.spec_tcp_size() as nat, |_i: int| 0u8),
    {
        zeroed(self.tcp_size)
    }

    /// Allocates a zeroed UDP relay buffer.
    pub fn get_udp_buffer(&self) -> (buf: Vec<u8>)
        ensures
            buf@ == Seq::new(self.spec_udp_size() as nat, |_i: int| 0u8),
    {
        zeroed(self.udp_size)
    }
}

/// A buffer of `n` zero bytes.
fn zeroed(n: usize) -> (buf: Vec<u8>)
    ensures
        buf@ == Seq::new(n as nat, |_i: int| 0u8),
{
    let buf = vec![0u8; n];
    assert(buf@ =~= Seq::new(n as nat, |_i: int| 0u8));
    buf
}

} // verus!
