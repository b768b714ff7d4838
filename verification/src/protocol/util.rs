//! Target-address validation shared by the protocol frames.
//!
//! Every rule here is stated over the UTF-8 bytes of the address. The bytes
//! `[`, `]` and `:` are ASCII, and in UTF-8 an ASCII byte never occurs inside
//! the encoding of another character, so searching the bytes finds exactly
//! the characters that a search of the text would find.

use vstd::prelude::*;
use vstd::string::{StringExecFns, StringSliceAdditionalSpecFns};

verus! {

/// Maximum target address length, in bytes, accepted by proxy frames.
pub const TARGET_LEN_MAX: usize = 512;

/// The byte `:`.
pub const COLON: u8 = 0x3a;

/// The byte `[`.
pub const OPEN_BRACKET: u8 = 0x5b;

/// The byte `]`.
pub const CLOSE_BRACKET: u8 = 0x5d;

/// Why a target address is not of the form `host:port`.
#[derive(Debug, Clone, Copy, PartialEq, Eq, Structural)]
pub enum TargetError {
    /// The address starts with `[` and has no `]` after it.
    MissingBracket,
    /// A bracketed host is not followed by `:`.
    MissingPort,
    /// An unbracketed address has no `:`, or more than one.
    TooManyColons,
    /// The port after the separating `:` is empty.
    EmptyPort,
}

/// A target address whose length is outside `1..=TARGET_LEN_MAX`.
#[derive(Debug)]
pub struct TargetLengthError {
    /// What was being checked when the length was refused.
    pub context: String,
    /// The refused length, in bytes.
    pub len: usize,
}

/// The decimal digit `d` as a character.
pub open spec fn digit_char(d: int) -> char {
    ((d + 48) as u32) as char
}

/// The decimal representation of `n`.
pub open spec fn decimal(n: nat) -> Seq<char>
    decreases n,
{
    if n < 10 {
        seq![digit_char(n as int)]
    } else {
        decimal(n / 10) + seq![digit_char((n % 10) as int)]
    }
}

/// The text of a length refusal: `<context>: invalid target length: <len>`.
pub open spec fn target_length_message(context: Seq<char>, len: nat) -> Seq<char> {
    context + ": invalid target length: "@ + decimal(len)
}

/// The decimal digit `d` as text.
pub(crate) fn digit_str(d: usize) -> (s: &'static str)
    requires
        d < 10,
    ensures
        s@ == seq![digit_char(d as int)],
{
    proof {
        reveal_strlit("0");
        reveal_strlit("1");
        reveal_strlit("2");
        reveal_strlit("3");
        reveal_strlit("4");
        reveal_strlit("5");
        reveal_strlit("6");
        reveal_strlit("7");
        reveal_strlit("8");
        reveal_strlit("9");
    }
    let s = match d {
        0 => "0",
        1 => "1",
        2 => "2",
        3 => "3",
        4 => "4",
        5 => "5",
        6 => "6",
        7 => "7",
        8 => "8",
        _ => "9",
    };
    assert(s@ =~= seq![digit_char(d as int)]);
    s
}

/// Appends the decimal representation of `n` to `out`.
pub(crate) fn append_decimal(out: &mut String, n: usize)
    ensures
        final(out)@ == old(out)@ + decimal(n as nat),
    decreases n,
{
    if n >= 10 {
        append_decimal(out, n / 10);
    }
    out.append(digit_str(n % 10));
    assert(out@ =~= old(out)@ + decimal(n as nat)) by {
        if n >= 10 {
            assert(decimal(n as nat) == decimal((n / 10) as nat) + seq![digit_char((n % 10) as int)]);
        }
    }
}

/// The text of a target syntax refusal, as `validate_target` words it.
pub open spec fn target_error_text(e: TargetError) -> Seq<char> {
    match e {
        TargetError::MissingBracket => "protocol::util::validate_target: invalid target address: missing ']' in address"@,
        TargetError::MissingPort => "protocol::util::validate_target: invalid target address: missing port in address"@,
        TargetError::TooManyColons => "protocol::util::validate_target: invalid target address: too many colons in address"@,
        TargetError::EmptyPort => "protocol::util::validate_target: invalid target address: empty port"@,
    }
}

impl TargetError {
    /// The error's text, as `validate_target` words it.
    pub fn message(&self) -> (m: String)
        ensures
            m@ == target_error_text(*self),
    {
        let text = match self {
            TargetError::MissingBracket => "protocol::util::validate_target: invalid target address: missing ']' in address",
            TargetError::MissingPort => "protocol::util::validate_target: invalid target address: missing port in address",
            TargetError::TooManyColons => "protocol::util::validate_target: invalid target address: too many colons in address",
            TargetError::EmptyPort => "protocol::util::validate_target: invalid target address: empty port",
        };
        text.to_owned()
    }
}

impl TargetLengthError {
    /// The error's text: `<context>: invalid target length: <len>`.
    pub fn message(&self) -> (m: String)
        ensures
            m@ == target_length_message(self.context@, self.len as nat),
    {
        let mut m = self.context.clone();
        m.append(": invalid target length: ");
        append_decimal(&mut m, self.len);
        m
    }
}

/// The port of a `host:port` address, given as the address's bytes.
///
/// A bracketed address `[host]:port` ends its host at the first `]`, which
/// must be followed by `:`; the port is everything after that `:`. Otherwise
/// the address must hold exactly one `:`, and the port is what follows it.
pub open spec fn spec_port_of(b: Seq<u8>) -> Result<Seq<u8>, TargetError> {
    if b.len() > 0 && b[0] == OPEN_BRACKET {
        let rest = b.skip(1);
        match rest.index_of_first(CLOSE_BRACKET) {
            None => Err(TargetError::MissingBracket),
            Some(end) => {
                let after = rest.skip(end + 1);
                if after.len() > 0 && after[0] == COLON {
                    Ok(after.skip(1))
                } else {
                    Err(TargetError::MissingPort)
                }
            },
        }
    } else {
        match b.index_of_last(COLON) {
            None => Err(TargetError::TooManyColons),
            Some(i) => if b.take(i).contains(COLON) {
                Err(TargetError::TooManyColons)
            } else {
                Ok(b.skip(i + 1))
            },
        }
    }
}

/// Whether the bytes `b` form a `host:port` address with a non-empty port.
pub open spec fn spec_validate_target(b: Seq<u8>) -> Result<(), TargetError> {
    match spec_port_of(b) {
        Ok(port) => if port.len() == 0 {
            Err(TargetError::EmptyPort)
        } else {
            Ok(())
        },
        Err(e) => Err(e),
    }
}

/// Whether a target of `len` bytes has a length that frames accept.
pub open spec fn target_len_ok(len: int) -> bool {
    1 <= len <= TARGET_LEN_MAX
}

/// Splits `host:port` and returns the byte offset at which the port starts.
fn split_host_port(target_addr: &str) -> (res: Result<usize, TargetError>)
    ensures
        match spec_port_of(target_addr.spec_bytes()) {
            Ok(port) => match res {
                Ok(start) => start <= target_addr.spec_bytes().len() && port
                    == target_addr.spec_bytes().skip(start as int),
                Err(_) => false,
            },
            Err(e) => res == Err::<usize, TargetError>(e),
        },
{
    let b = target_addr.as_bytes();
    let n = b.len();
    let ghost bs = target_addr.spec_bytes();
    assert(b@ == bs);
    if n > 0 && b[0] == OPEN_BRACKET {
        let ghost rest = bs.skip(1);
        let mut i: usize = 1;
        while i < n && b[i] != CLOSE_BRACKET
            invariant
                1 <= i <= n,
                n == b@.len(),
                b@ == bs,
                rest == bs.skip(1),
                forall|k: int| 1 <= k < i ==> b@[k] != CLOSE_BRACKET,
            decreases n - i,
        {
            i = i + 1;
        }
        proof {
            rest.index_of_first_ensures(CLOSE_BRACKET);
        }
        if i == n {
            assert forall|k: int| 0 <= k < rest.len() implies rest[k] != CLOSE_BRACKET by {
                assert(rest[k] == b@[k + 1]);
            }
            return Err(TargetError::MissingBracket);
        }
        proof {
            assert(rest[i - 1] == CLOSE_BRACKET);
            let first = rest.index_of_first(CLOSE_BRACKET).unwrap();
            if first < i - 1 {
                assert(rest[first] == b@[first + 1]);
            }
            if first > i - 1 {
                assert(rest[i - 1] != CLOSE_BRACKET);
            }
            assert(first == i - 1);
            assert(rest.skip(i as int) =~= bs.skip(i + 1));
        }
        if i + 1 < n && b[i + 1] == COLON {
            proof {
                assert(bs.skip(i + 1).skip(1) =~= bs.skip(i + 2));
            }
            Ok(i + 2)
        } else {
            Err(TargetError::MissingPort)
        }
    } else {
        // Find the last `:`.
        let mut j: usize = n;
        while j > 0 && b[j - 1] != COLON
            invariant
                j <= n,
                n == b@.len(),
                b@ == bs,
                forall|k: int| j <= k < n ==> b@[k] != COLON,
            decreases j,
        {
            j = j - 1;
        }
        proof {
            bs.index_of_last_ensures(COLON);
        }
        if j == 0 {
            return Err(TargetError::TooManyColons);
        }
        let last = j - 1;
        proof {
            let l = bs.index_of_last(COLON).unwrap();
            if l > last {
                assert(bs[l] != COLON);
            }
            if l < last {
                assert(bs[last as int] == COLON);
            }
            assert(l == last);
        }
        // Look for another `:` before it.
        let mut k: usize = 0;
        while k < last && b[k] != COLON
            invariant
                k <= last,
                last < n,
                n == b@.len(),
                b@ == bs,
                forall|m: int| 0 <= m < k ==> b@[m] != COLON,
            decreases last - k,
        {
            k = k + 1;
        }
        if k < last {
            proof {
                assert(bs.take(last as int)[k as int] == COLON);
            }
            Err(TargetError::TooManyColons)
        } else {
            proof {
                assert forall|m: int| 0 <= m < bs.take(last as int).len() implies bs.take(
                    last as int,
                )[m] != COLON by {
                    assert(bs.take(last as int)[m] == b@[m]);
                }
            }
            Ok(last + 1)
        }
    }
}

/// Validates `host:port` target syntax without resolving the host.
pub fn validate_target(target_addr: &str) -> (res: Result<(), TargetError>)
    ensures
        res == spec_validate_target(target_addr.spec_bytes()),
{
    match split_host_port(target_addr) {
        Ok(start) => {
            if start == target_addr.as_bytes().len() {
                Err(TargetError::EmptyPort)
            } else {
                Ok(())
            }
        },
        Err(e) => Err(e),
    }
}

/// Checks the shared target-address length bound; `context` names the
/// caller in the error.
pub fn check_target_len(context: &str, target_addr: &str) -> (res: Result<(), TargetLengthError>)
    ensures
        match res {
            Ok(()) => target_len_ok(target_addr.spec_bytes().len() as int),
            Err(e) => {
                &&& !target_len_ok(target_addr.spec_bytes().len() as int)
                &&& e.context@ == context@
                &&& e.len == target_addr.spec_bytes().len()
            },
        },
{
    let len = target_addr.as_bytes().len();
    if len == 0 || len > TARGET_LEN_MAX {
        return Err(TargetLengthError { context: context.to_owned(), len });
    }
    Ok(())
}


/// An unbracketed address made of a host and a port joined by their only
/// `:` is accepted, and its port is what follows the `:`, whatever the
/// lengths of host and port.
pub proof fn law_single_colon_address_is_accepted(host: Seq<u8>, port: Seq<u8>)
    requires
        !host.contains(COLON),
        !port.contains(COLON),
        port.len() > 0,
        host.len() == 0 || host[0] != OPEN_BRACKET,
    ensures
        spec_port_of(host + seq![COLON] + port) == Ok::<Seq<u8>, TargetError>(port),
        spec_validate_target(host + seq![COLON] + port) == Ok::<(), TargetError>(()),
{
    let b = host + seq![COLON] + port;
    let i = host.len() as int;
    assert(b[i] == COLON);
    assert(b.len() > 0 && b[0] != OPEN_BRACKET) by {
        if host.len() == 0 {
            assert(b[0] == COLON);
        } else {
            assert(b[0] == host[0]);
        }
    }
    b.index_of_last_ensures(COLON);
    let l = b.index_of_last(COLON)->Some_0;
    if l > i {
        assert(b[l] == port[l - i - 1]);
        assert(port.contains(COLON));
    }
    if l < i {
        assert(b[l] == host[l]);
        assert(host.contains(COLON));
    }
    assert(b.take(i) =~= host);
    assert(b.skip(i + 1) =~= port);
}

/// A bracketed host without `]`, followed by `:` and a port, is accepted, and
/// its port is everything after that `:`.
pub proof fn law_bracketed_address_is_accepted(host: Seq<u8>, port: Seq<u8>)
    requires
        !host.contains(CLOSE_BRACKET),
        port.len() > 0,
    ensures
        spec_port_of(seq![OPEN_BRACKET] + host + seq![CLOSE_BRACKET, COLON] + port) == Ok::<
            Seq<u8>,
            TargetError,
        >(port),
        spec_validate_target(seq![OPEN_BRACKET] + host + seq![CLOSE_BRACKET, COLON] + port) == Ok::<
            (),
            TargetError,
        >(()),
{
    let b = seq![OPEN_BRACKET] + host + seq![CLOSE_BRACKET, COLON] + port;
    let rest = b.skip(1);
    let e = host.len() as int;
    assert(b[0] == OPEN_BRACKET);
    assert(rest =~= host + seq![CLOSE_BRACKET, COLON] + port);
    assert(rest[e] == CLOSE_BRACKET);
    rest.index_of_first_ensures(CLOSE_BRACKET);
    let f = rest.index_of_first(CLOSE_BRACKET)->Some_0;
    if f < e {
        assert(rest[f] == host[f]);
        assert(host.contains(CLOSE_BRACKET));
    }
    if f > e {
        assert(rest[e] != CLOSE_BRACKET);
    }
    let after = rest.skip(e + 1);
    assert(after =~= seq![COLON] + port);
    assert(after[0] == COLON);
    assert(after.skip(1) =~= port);
}


/// An unbracketed address is refused unless it holds exactly one `:`: with
/// no `:` or with a `:` in its host it fails as having too many colons, and
/// with nothing after its only `:` it fails for the empty port.
pub proof fn law_unbracketed_address_needs_one_colon(b: Seq<u8>)
    requires
        b.len() == 0 || b[0] != OPEN_BRACKET,
    ensures
        !b.contains(COLON) ==> spec_validate_target(b) == Err::<(), TargetError>(
            TargetError::TooManyColons,
        ),
        forall|i: int, j: int|
            #![trigger b[i], b[j]]
            0 <= i < j < b.len() && b[i] == COLON && b[j] == COLON ==> spec_validate_target(
                b,
            ) == Err::<(), TargetError>(TargetError::TooManyColons),
        b.len() > 0 && b[b.len() - 1] == COLON && !b.take(b.len() - 1).contains(COLON)
            ==> spec_validate_target(b) == Err::<(), TargetError>(TargetError::EmptyPort),
{
    b.index_of_last_ensures(COLON);
    assert forall|i: int, j: int|
        #![trigger b[i], b[j]]
        0 <= i < j < b.len() && b[i] == COLON && b[j] == COLON implies spec_validate_target(
            b,
        ) == Err::<(), TargetError>(TargetError::TooManyColons) by {
        let l = b.index_of_last(COLON)->Some_0;
        assert(l >= j);
        assert(b.take(l)[i] == COLON);
    }
    if b.len() > 0 && b[b.len() - 1] == COLON && !b.take(b.len() - 1).contains(COLON) {
        let l = b.index_of_last(COLON)->Some_0;
        assert(l == b.len() - 1);
        assert(b.skip(l + 1).len() == 0);
    }
}

} // verus!
