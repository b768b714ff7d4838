//! Portal traffic and session counters.
//!
//! The counters follow the wrapping arithmetic of the atomic counters they
//! stand for: incrementing the largest value gives the smallest.

use vstd::prelude::*;

verus! {

/// Counters used by telemetry and relay accounting.
#[derive(Debug)]
pub struct Stats {
    /// Bytes read from TCP clients and sent to targets.
    pub tcp_rx: u64,
    /// Bytes read from TCP targets and sent to clients.
    pub tcp_tx: u64,
    /// Bytes read from UDP clients and sent to targets.
    pub udp_rx: u64,
    /// Bytes read from UDP targets and sent to clients.
    pub udp_tx: u64,
    /// Currently active TCP relay sessions.
    pub tcp_active: i32,
    /// Currently active UDP relay sessions.
    pub udp_active: i32,
}

/// `x + 1`, wrapping from `i32::MAX` to `i32::MIN`.
pub open spec fn wrapping_inc(x: i32) -> i32 {
    if x == i32::MAX {
        i32::MIN
    } else {
        (x + 1) as i32
    }
}

/// `x - 1`, wrapping from `i32::MIN` to `i32::MAX`.
pub open spec fn wrapping_dec(x: i32) -> i32 {
    if x == i32::MIN {
        i32::MAX
    } else {
        (x - 1) as i32
    }
}

/// The counters with one more active session of the selected transport.
pub open spec fn spec_add_session(s: Stats, is_udp: bool) -> Stats {
    if is_udp {
        Stats { udp_active: wrapping_inc(s.udp_active), ..s }
    } else {
        Stats { tcp_active: wrapping_inc(s.tcp_active), ..s }
    }
}

/// The counters with one less active session of the selected transport.
pub open spec fn spec_done_session(s: Stats, is_udp: bool) -> Stats {
    if is_udp {
        Stats { udp_active: wrapping_dec(s.udp_active), ..s }
    } else {
        Stats { tcp_active: wrapping_dec(s.tcp_active), ..s }
    }
}

fn inc(x: i32) -> (r: i32)
    ensures
        r == wrapping_inc(x),
{
    if x == i32::MAX {
        i32::MIN
    } else {
        x + 1
    }
}

fn dec(x: i32) -> (r: i32)
    ensures
        r == wrapping_dec(x),
{
    if x == i32::MIN {
        i32::MAX
    } else {
        x - 1
    }
}

impl Default for Stats {
    /// All counters at zero.
    fn default() -> (s: Self)
        ensures
            s.tcp_rx == 0 && s.tcp_tx == 0 && s.udp_rx == 0 && s.udp_tx == 0,
            s.tcp_active == 0 && s.udp_active == 0,
    {
        Stats { tcp_rx: 0, tcp_tx: 0, udp_rx: 0, udp_tx: 0, tcp_active: 0, udp_active: 0 }
    }
}

impl Stats {
    /// Increments the active session counter for the selected transport.
    pub fn add_session(&mut self, is_udp: bool)
        ensures
            *final(self) == spec_add_session(*old(self), is_udp),
    {
        if is_udp {
            self.udp_active = inc(self.udp_active);
        } else {
            self.tcp_active = inc(self.tcp_active);
        }
    }

    /// Decrements the active session counter for the selected transport.
    pub fn done_session(&mut self, is_udp: bool)
        ensures
            *final(self) == spec_done_session(*old(self), is_udp),
    {
        if is_udp {
            self.udp_active = dec(self.udp_active);
        } else {
            self.tcp_active = dec(self.tcp_active);
        }
    }
}

/// Ending a session undoes starting it: `done_session` after `add_session`
/// with the same transport restores every counter.
pub proof fn law_done_undoes_add(s: Stats, is_udp: bool)
    ensures
        spec_done_session(spec_add_session(s, is_udp), is_udp) == s,
{
}

/// Starting and ending sessions on one transport never moves the other
/// transport's counter, nor the byte counters.
pub proof fn law_sessions_are_independent(s: Stats, is_udp: bool)
    ensures
        is_udp ==> spec_add_session(s, is_udp).tcp_active == s.tcp_active
            && spec_done_session(s, is_udp).tcp_active == s.tcp_active,
        !is_udp ==> spec_add_session(s, is_udp).udp_active == s.udp_active
            && spec_done_session(s, is_udp).udp_active == s.udp_active,
        spec_add_session(s, is_udp).tcp_rx == s.tcp_rx && spec_add_session(s, is_udp).tcp_tx
            == s.tcp_tx && spec_add_session(s, is_udp).udp_rx == s.udp_rx && spec_add_session(
            s,
            is_udp,
        ).udp_tx == s.udp_tx,
{
}


/// Starting a session counts exactly one more session of its transport, and
/// ending one counts exactly one fewer, away from the wrapping bounds.
pub proof fn law_sessions_count_by_one(s: Stats, is_udp: bool)
    ensures
        is_udp && s.udp_active < i32::MAX ==> spec_add_session(s, is_udp).udp_active
            == s.udp_active + 1,
        is_udp && s.udp_active > i32::MIN ==> spec_done_session(s, is_udp).udp_active
            == s.udp_active - 1,
        !is_udp && s.tcp_active < i32::MAX ==> spec_add_session(s, is_udp).tcp_active
            == s.tcp_active + 1,
        !is_udp && s.tcp_active > i32::MIN ==> spec_done_session(s, is_udp).tcp_active
            == s.tcp_active - 1,
{
}

} // verus!
